//! The task queue: every task on record, with the tables that index them.

use crate::bitmap::{
    bitmap_insert, bitmap_intersect_with, bitmap_new, bitmap_remove_from, below, members,
};
use crate::batches::task_views;
use crate::indices::TaskIndices;
use crate::table::{within, TableKey};
use crate::tasks::{
    BatchId, Error, Kind, KindView, KindWithContent, Status, Task, TaskId, TaskView,
};
use crate::utils::{
    check_index_swap_validity, clamped, filter_out_references_to_newer_tasks, in_window,
    keep_ids_within_datetimes, occurs_twice, swapped_names,
};
use roaring::RoaringBitmap;
use vstd::prelude::*;

verus! {

/// The records are in ascending order of identifier, none twice.
pub open spec fn uid_sorted(s: Seq<Task>) -> bool {
    forall|i: int, j: int| 0 <= i < j < s.len() ==> (#[trigger] s[i]).uid < (#[trigger] s[j]).uid
}

/// The records as a map from identifier to content.
pub open spec fn task_map(s: Seq<Task>) -> Map<TaskId, TaskView> {
    Map::new(
        |uid: TaskId| exists|i: int| 0 <= i < s.len() && (#[trigger] s[i]).uid == uid,
        |uid: TaskId| s[choose|i: int| 0 <= i < s.len() && (#[trigger] s[i]).uid == uid]@,
    )
}

pub open spec fn lookup(m: Map<TaskId, TaskView>, uid: TaskId) -> Option<TaskView> {
    if m.contains_key(uid) {
        Some(m[uid])
    } else {
        None
    }
}

pub proof fn lemma_task_map_at(s: Seq<Task>, i: int)
    requires
        uid_sorted(s),
        0 <= i < s.len(),
    ensures
        task_map(s).contains_key(s[i].uid),
        task_map(s)[s[i].uid] == s[i]@,
{
    let uid = s[i].uid;
    let j = choose|j: int| 0 <= j < s.len() && (#[trigger] s[j]).uid == uid;
    assert(j == i) by {
        if j < i {
            assert(s[j].uid < s[i].uid);
        }
        if i < j {
            assert(s[i].uid < s[j].uid);
        }
    }
}

pub proof fn lemma_task_map_push(s: Seq<Task>, t: Task)
    requires
        uid_sorted(s),
        forall|i: int| 0 <= i < s.len() ==> (#[trigger] s[i]).uid < t.uid,
    ensures
        uid_sorted(s.push(t)),
        task_map(s.push(t)) == task_map(s).insert(t.uid, t@),
{
    let s2 = s.push(t);
    assert(uid_sorted(s2));
    assert forall|uid: TaskId| #[trigger]
        task_map(s2).contains_key(uid) == task_map(s).insert(t.uid, t@).contains_key(uid) by {
        if task_map(s2).contains_key(uid) {
            let i = choose|i: int| 0 <= i < s2.len() && (#[trigger] s2[i]).uid == uid;
            if i < s.len() {
                assert(s[i].uid == uid);
            }
        }
        if task_map(s).contains_key(uid) {
            let i = choose|i: int| 0 <= i < s.len() && (#[trigger] s[i]).uid == uid;
            assert(s2[i].uid == uid);
        }
        if uid == t.uid {
            assert(s2[s.len() as int].uid == uid);
        }
    }
    assert forall|uid: TaskId| task_map(s2).contains_key(uid) implies #[trigger] task_map(s2)[uid]
        == task_map(s).insert(t.uid, t@)[uid] by {
        let i = choose|i: int| 0 <= i < s2.len() && (#[trigger] s2[i]).uid == uid;
        lemma_task_map_at(s2, i);
        if i < s.len() {
            assert(s[i].uid == uid);
            lemma_task_map_at(s, i);
        }
    }
    assert(task_map(s2) =~= task_map(s).insert(t.uid, t@));
}

pub proof fn lemma_task_map_update(s: Seq<Task>, i: int, t: Task)
    requires
        uid_sorted(s),
        0 <= i < s.len(),
        t.uid == s[i].uid,
    ensures
        uid_sorted(s.update(i, t)),
        task_map(s.update(i, t)) == task_map(s).insert(t.uid, t@),
{
    let s2 = s.update(i, t);
    assert forall|a: int, b: int| 0 <= a < b < s2.len() implies (#[trigger] s2[a]).uid < (
    #[trigger] s2[b]).uid by {
        assert(s[a].uid < s[b].uid);
    }
    assert forall|uid: TaskId| #[trigger]
        task_map(s2).contains_key(uid) == task_map(s).insert(t.uid, t@).contains_key(uid) by {
        if task_map(s2).contains_key(uid) {
            let j = choose|j: int| 0 <= j < s2.len() && (#[trigger] s2[j]).uid == uid;
            assert(s[j].uid == uid);
        }
        if task_map(s).contains_key(uid) {
            let j = choose|j: int| 0 <= j < s.len() && (#[trigger] s[j]).uid == uid;
            assert(s2[j].uid == uid);
        }
        if uid == t.uid {
            assert(s2[i].uid == uid);
        }
    }
    assert forall|uid: TaskId| task_map(s2).contains_key(uid) implies #[trigger] task_map(s2)[uid]
        == task_map(s).insert(t.uid, t@)[uid] by {
        let j = choose|j: int| 0 <= j < s2.len() && (#[trigger] s2[j]).uid == uid;
        lemma_task_map_at(s2, j);
        assert(s[j].uid == uid);
        lemma_task_map_at(s, j);
        if j == i {
        } else {
            assert(s2[j] == s[j]);
        }
    }
    assert(task_map(s2) =~= task_map(s).insert(t.uid, t@));
}

pub proof fn lemma_task_map_remove(s: Seq<Task>, i: int)
    requires
        uid_sorted(s),
        0 <= i < s.len(),
    ensures
        uid_sorted(s.remove(i)),
        task_map(s.remove(i)) == task_map(s).remove(s[i].uid),
{
    let s2 = s.remove(i);
    assert forall|a: int, b: int| 0 <= a < b < s2.len() implies (#[trigger] s2[a]).uid < (
    #[trigger] s2[b]).uid by {
        let a0 = if a < i { a } else { a + 1 };
        let b0 = if b < i { b } else { b + 1 };
        assert(s[a0].uid < s[b0].uid);
    }
    assert forall|uid: TaskId| #[trigger]
        task_map(s2).contains_key(uid) == task_map(s).remove(s[i].uid).contains_key(uid) by {
        if task_map(s2).contains_key(uid) {
            let j = choose|j: int| 0 <= j < s2.len() && (#[trigger] s2[j]).uid == uid;
            let j0 = if j < i { j } else { j + 1 };
            assert(s[j0].uid == uid);
            if j0 < i {
                assert(s[j0].uid < s[i].uid);
            } else {
                assert(s[i].uid < s[j0].uid);
            }
        }
        if task_map(s).contains_key(uid) && uid != s[i].uid {
            let j = choose|j: int| 0 <= j < s.len() && (#[trigger] s[j]).uid == uid;
            let j1 = if j < i { j } else { j - 1 };
            assert(s2[j1].uid == uid);
        }
    }
    assert forall|uid: TaskId| task_map(s2).contains_key(uid) implies #[trigger] task_map(s2)[uid]
        == task_map(s).remove(s[i].uid)[uid] by {
        let j = choose|j: int| 0 <= j < s2.len() && (#[trigger] s2[j]).uid == uid;
        lemma_task_map_at(s2, j);
        let j0 = if j < i { j } else { j + 1 };
        assert(s[j0].uid == uid);
        lemma_task_map_at(s, j0);
    }
    assert(task_map(s2) =~= task_map(s).remove(s[i].uid));
}

/// Whether the record `new` may take the place of the record `old`.
///
/// The identifier and the time of enqueueing never change, a start or finish time
/// once set stays as it is, and a task that reached a terminal status keeps it.
pub open spec fn legal_update(old: TaskView, new: TaskView) -> bool {
    &&& new.uid == old.uid
    &&& new.enqueued_at == old.enqueued_at
    &&& (old.started_at is Some ==> new.started_at == old.started_at)
    &&& (old.finished_at is Some ==> new.finished_at == old.finished_at)
    &&& (old.status.is_terminal() ==> new.status == old.status)
}

/// Nothing on record was lost, and whatever had reached a terminal status still has it.
pub open spec fn keeps_history(old: Map<TaskId, TaskView>, new: Map<TaskId, TaskView>) -> bool {
    forall|uid: TaskId| #[trigger]
        old.contains_key(uid) ==> new.contains_key(uid) && new[uid].enqueued_at
            == old[uid].enqueued_at && (old[uid].status.is_terminal() ==> new[uid].status
            == old[uid].status)
}

/// What holds from one state of the queue to the next holds along any number of
/// steps: a task that was enqueued stays on record, and once it has reached a
/// terminal status it keeps it, for as long as no task is deleted.
pub proof fn lemma_keeps_history_transitive(
    a: Map<TaskId, TaskView>,
    b: Map<TaskId, TaskView>,
    c: Map<TaskId, TaskView>,
)
    requires
        keeps_history(a, b),
        keeps_history(b, c),
    ensures
        keeps_history(a, c),
{
    assert forall|uid: TaskId| #[trigger] a.contains_key(uid) implies c.contains_key(uid)
        && c[uid].enqueued_at == a[uid].enqueued_at && (a[uid].status.is_terminal()
        ==> c[uid].status == a[uid].status) by {
        assert(b.contains_key(uid));
    }
}

/// The record of a task of kind `kind` that is enqueued at `now` under `uid`.
pub open spec fn enqueued(uid: TaskId, kind: KindView, now: i128) -> TaskView {
    clamped(
        TaskView {
            uid,
            batch_uid: None,
            enqueued_at: now,
            started_at: None,
            finished_at: None,
            error: None,
            canceled_by: None,
            details: kind.default_details(),
            status: Status::Enqueued,
            kind,
        },
    )
}

/// Whether the swaps of a task of this kind name no index twice.
pub open spec fn swaps_valid(kind: KindView) -> bool {
    forall|n: Seq<char>| !occurs_twice(swapped_names(kind), n, swapped_names(kind).len() as int)
}

/// What to look for in the queue. A criterion that is not given does not bind; a
/// task qualifies when it meets every criterion given, and it meets a criterion
/// given as a list when it meets one member of the list.
pub struct Query {
    pub statuses: Option<Vec<Status>>,
    pub types: Option<Vec<Kind>>,
    pub index_uids: Option<Vec<String>>,
    pub uids: Option<Vec<TaskId>>,
    pub canceled_by: Option<Vec<TaskId>>,
    pub batch_uids: Option<Vec<BatchId>>,
    pub after_enqueued_at: Option<i128>,
    pub before_enqueued_at: Option<i128>,
    pub after_started_at: Option<i128>,
    pub before_started_at: Option<i128>,
    pub after_finished_at: Option<i128>,
    pub before_finished_at: Option<i128>,
    /// The greatest identifier that qualifies.
    pub from: Option<TaskId>,
}

/// Whether a time that may be unset lies in a window; with no bound at all it does.
pub open spec fn time_matches(at: Option<i128>, after: Option<i128>, before: Option<i128>) -> bool {
    (after is None && before is None) || (at matches Some(t) && within(t, after, before))
}

impl Query {
    pub open spec fn status_matches(&self, t: TaskView) -> bool {
        self.statuses matches Some(list) ==> exists|i: int|
            0 <= i < list.len() && #[trigger] list[i] == t.status
    }

    pub open spec fn kind_matches(&self, t: TaskView) -> bool {
        self.types matches Some(list) ==> exists|i: int|
            0 <= i < list.len() && #[trigger] list[i] == t.kind.as_kind()
    }

    pub open spec fn index_matches(&self, t: TaskView) -> bool {
        self.index_uids matches Some(list) ==> exists|i: int|
            0 <= i < list.len() && t.kind.indexes().contains((#[trigger] list[i])@)
    }

    pub open spec fn uid_matches(&self, t: TaskView) -> bool {
        self.uids matches Some(list) ==> exists|i: int|
            0 <= i < list.len() && #[trigger] list[i] == t.uid
    }

    pub open spec fn canceler_matches(&self, t: TaskView) -> bool {
        self.canceled_by matches Some(list) ==> exists|i: int|
            0 <= i < list.len() && t.canceled_by == Some(#[trigger] list[i])
    }

    pub open spec fn batch_matches(&self, t: TaskView) -> bool {
        self.batch_uids matches Some(list) ==> exists|i: int|
            0 <= i < list.len() && t.batch_uid == Some(#[trigger] list[i])
    }

    /// Whether the task `t` meets every criterion of the query.
    pub open spec fn matches(&self, t: TaskView) -> bool {
        &&& self.status_matches(t)
        &&& self.kind_matches(t)
        &&& self.index_matches(t)
        &&& self.uid_matches(t)
        &&& self.canceler_matches(t)
        &&& self.batch_matches(t)
        &&& time_matches(Some(t.enqueued_at), self.after_enqueued_at, self.before_enqueued_at)
        &&& time_matches(t.started_at, self.after_started_at, self.before_started_at)
        &&& time_matches(t.finished_at, self.after_finished_at, self.before_finished_at)
        &&& (self.from matches Some(from) ==> t.uid <= from)
    }

    /// The query that every task meets.
    pub fn any() -> (r: Query)
        ensures
            forall|t: TaskView| r.matches(t),
    {
        Query {
            statuses: None,
            types: None,
            index_uids: None,
            uids: None,
            canceled_by: None,
            batch_uids: None,
            after_enqueued_at: None,
            before_enqueued_at: None,
            after_started_at: None,
            before_started_at: None,
            after_finished_at: None,
            before_finished_at: None,
            from: None,
        }
    }
}

/// A window of time whose two bounds are the same holds no time, so a query with
/// such a window matches no task.
pub proof fn lemma_closed_window_matches_nothing(q: Query, t: TaskView)
    requires
        q.after_enqueued_at is Some && q.after_enqueued_at == q.before_enqueued_at
            || q.after_started_at is Some && q.after_started_at == q.before_started_at
            || q.after_finished_at is Some && q.after_finished_at == q.before_finished_at,
    ensures
        !q.matches(t),
{
}

/// The records come in strictly ascending order of identifier.
pub open spec fn uids_ascend(records: Seq<TaskView>) -> bool {
    forall|i: int, j: int|
        0 <= i < j < records.len() ==> (#[trigger] records[i]).uid < (#[trigger] records[j]).uid
}

/// The map after the first `n` records of a list were written over what it held.
pub open spec fn overwritten(m: Map<TaskId, TaskView>, records: Seq<TaskView>, n: int) -> Map<
    TaskId,
    TaskView,
>
    decreases n,
{
    if n <= 0 {
        m
    } else {
        overwritten(m, records, n - 1).insert(records[n - 1].uid, records[n - 1])
    }
}

/// Whether every record of a list may take the place of the record of its task:
/// the identifiers ascend, each task is on record, and each change is a legal update.
pub open spec fn all_legal(m: Map<TaskId, TaskView>, records: Seq<TaskView>) -> bool {
    &&& uids_ascend(records)
    &&& forall|i: int|
        0 <= i < records.len() ==> m.contains_key((#[trigger] records[i]).uid) && legal_update(
            m[records[i].uid],
            records[i],
        )
}

/// What overwriting leaves of a map: the records written, and the rest as it was.
pub proof fn lemma_overwritten(
    m: Map<TaskId, TaskView>,
    records: Seq<TaskView>,
    n: int,
    uid: TaskId,
)
    requires
        uids_ascend(records),
        0 <= n <= records.len(),
    ensures
        overwritten(m, records, n).contains_key(uid) <==> m.contains_key(uid) || exists|i: int|
            0 <= i < n && (#[trigger] records[i]).uid == uid,
        forall|i: int|
            0 <= i < n && (#[trigger] records[i]).uid == uid ==> overwritten(m, records, n)[uid]
                == records[i],
        (forall|i: int| 0 <= i < n ==> (#[trigger] records[i]).uid != uid) ==> overwritten(
            m,
            records,
            n,
        ).contains_key(uid) == m.contains_key(uid) && (m.contains_key(uid) ==> overwritten(
            m,
            records,
            n,
        )[uid] == m[uid]),
    decreases n,
{
    if n > 0 {
        lemma_overwritten(m, records, n - 1, uid);
        if records[n - 1].uid == uid {
            assert forall|i: int| 0 <= i < n && (#[trigger] records[i]).uid == uid implies i == n
                - 1 by {
                if i < n - 1 {
                    assert(records[i].uid < records[n - 1].uid);
                }
            }
        } else {
            if overwritten(m, records, n).contains_key(uid) && !m.contains_key(uid) {
                let i = choose|i: int| 0 <= i < n - 1 && (#[trigger] records[i]).uid == uid;
                assert(records[i].uid == uid);
            }
        }
    }
}

/// The task queue.
pub struct TaskQueue {
    all_tasks: Vec<Task>,
    indices: TaskIndices,
}

impl TaskQueue {
    /// Every task on record, by identifier.
    pub closed spec fn tasks(&self) -> Map<TaskId, TaskView> {
        task_map(self.all_tasks@)
    }

    /// The tables tell the truth about every identifier.
    pub closed spec fn wf(&self) -> bool {
        &&& uid_sorted(self.all_tasks@)
        &&& self.indices.wf()
        &&& forall|uid: TaskId| #[trigger] self.indices.agrees(uid, lookup(self.tasks(), uid))
    }

    pub closed spec fn by_status(&self, status: Status) -> Set<TaskId> {
        self.indices.status.ids(status)
    }

    pub closed spec fn by_kind(&self, kind: Kind) -> Set<TaskId> {
        self.indices.kind.ids(kind)
    }

    pub closed spec fn by_index(&self, name: Seq<char>) -> Set<TaskId> {
        self.indices.index_tasks.ids(name)
    }

    pub closed spec fn by_canceled_by(&self, canceler: TaskId) -> Set<TaskId> {
        self.indices.canceled_by.ids(canceler)
    }

    pub closed spec fn by_enqueued_at(&self, at: i128) -> Set<TaskId> {
        self.indices.enqueued_at.ids(at)
    }

    pub closed spec fn by_started_at(&self, at: i128) -> Set<TaskId> {
        self.indices.started_at.ids(at)
    }

    pub closed spec fn by_finished_at(&self, at: i128) -> Set<TaskId> {
        self.indices.finished_at.ids(at)
    }

    pub closed spec fn by_batch(&self, batch: u32) -> Set<TaskId> {
        self.indices.batch_to_tasks.ids(batch)
    }

    /// The identifier that the next task gets: one more than the greatest on record.
    pub closed spec fn next_uid(&self) -> int {
        if self.all_tasks.len() == 0 {
            0
        } else {
            self.all_tasks[self.all_tasks.len() - 1].uid + 1
        }
    }

    /// A task is filed under a status exactly when it is on record with that status.
    pub proof fn lemma_by_status(&self, status: Status, uid: TaskId)
        requires
            self.wf(),
        ensures
            self.by_status(status).contains(uid) <==> (self.tasks().contains_key(uid)
                && self.tasks()[uid].status == status),
    {
        assert(self.indices.agrees(uid, lookup(self.tasks(), uid)));
    }

    /// A task is filed under a kind exactly when it is on record with that kind.
    pub proof fn lemma_by_kind(&self, kind: Kind, uid: TaskId)
        requires
            self.wf(),
        ensures
            self.by_kind(kind).contains(uid) <==> (self.tasks().contains_key(uid)
                && self.tasks()[uid].kind.as_kind() == kind),
    {
        assert(self.indices.agrees(uid, lookup(self.tasks(), uid)));
    }

    /// A task is filed under an index name exactly when it is on record and refers to it.
    pub proof fn lemma_by_index(&self, name: Seq<char>, uid: TaskId)
        requires
            self.wf(),
        ensures
            self.by_index(name).contains(uid) <==> (self.tasks().contains_key(uid)
                && self.tasks()[uid].kind.indexes().contains(name)),
    {
        assert(self.indices.agrees(uid, lookup(self.tasks(), uid)));
    }

    /// A task is filed under a canceler exactly when it is on record as canceled by it.
    pub proof fn lemma_by_canceled_by(&self, canceler: TaskId, uid: TaskId)
        requires
            self.wf(),
        ensures
            self.by_canceled_by(canceler).contains(uid) <==> (self.tasks().contains_key(uid)
                && self.tasks()[uid].canceled_by == Some(canceler)),
    {
        assert(self.indices.agrees(uid, lookup(self.tasks(), uid)));
    }

    /// A task is filed under a batch exactly when it is on record as claimed by it.
    pub proof fn lemma_by_batch(&self, batch: u32, uid: TaskId)
        requires
            self.wf(),
        ensures
            self.by_batch(batch).contains(uid) <==> (self.tasks().contains_key(uid)
                && self.tasks()[uid].batch_uid == Some(batch)),
    {
        assert(self.indices.agrees(uid, lookup(self.tasks(), uid)));
    }

    /// The timestamp tables hold a task exactly when the field is set, under its value.
    pub proof fn lemma_by_time(&self, at: i128, uid: TaskId)
        requires
            self.wf(),
        ensures
            self.by_enqueued_at(at).contains(uid) <==> (self.tasks().contains_key(uid)
                && self.tasks()[uid].enqueued_at == at),
            self.by_started_at(at).contains(uid) <==> (self.tasks().contains_key(uid)
                && self.tasks()[uid].started_at == Some(at)),
            self.by_finished_at(at).contains(uid) <==> (self.tasks().contains_key(uid)
                && self.tasks()[uid].finished_at == Some(at)),
    {
        assert(self.indices.agrees(uid, lookup(self.tasks(), uid)));
    }

    /// Identifiers are given in order: every task on record is below the next
    /// identifier, which is 0 exactly when nothing is on record, and otherwise follows
    /// the greatest one on record.
    pub proof fn lemma_next_uid(&self)
        requires
            self.wf(),
        ensures
            0 <= self.next_uid() <= u32::MAX + 1,
            forall|uid: TaskId| self.tasks().contains_key(uid) ==> uid < self.next_uid(),
            self.next_uid() == 0 <==> self.tasks().dom() == Set::<TaskId>::empty(),
            self.next_uid() > 0 ==> self.tasks().contains_key((self.next_uid() - 1) as u32),
    {
        let s = self.all_tasks@;
        assert forall|uid: TaskId| self.tasks().contains_key(uid) implies uid
            < self.next_uid() by {
            let i = choose|i: int| 0 <= i < s.len() && (#[trigger] s[i]).uid == uid;
            if i < s.len() - 1 {
                assert(s[i].uid < s[s.len() - 1].uid);
            }
        }
        if s.len() == 0 {
            assert(self.tasks().dom() =~= Set::<TaskId>::empty());
        } else {
            lemma_task_map_at(s, s.len() - 1);
            assert(self.tasks().dom().contains(s[s.len() - 1].uid));
        }
    }

    /// An empty queue.
    pub fn new() -> (r: Self)
        ensures
            r.wf(),
            r.tasks() == Map::<TaskId, TaskView>::empty(),
            r.next_uid() == 0,
    {
        let r = TaskQueue { all_tasks: Vec::new(), indices: TaskIndices::new() };
        assert(r.tasks() =~= Map::<TaskId, TaskView>::empty());
        r
    }

    fn position(&self, uid: TaskId) -> (r: Option<usize>)
        requires
            uid_sorted(self.all_tasks@),
        ensures
            match r {
                Some(i) => i < self.all_tasks.len() && self.all_tasks[i as int].uid == uid
                    && self.tasks().contains_key(uid) && self.tasks()[uid]
                    == self.all_tasks[i as int]@,
                None => !self.tasks().contains_key(uid),
            },
    {
        let mut lo: usize = 0;
        let mut hi: usize = self.all_tasks.len();
        while lo < hi
            invariant
                lo <= hi <= self.all_tasks.len(),
                uid_sorted(self.all_tasks@),
                forall|j: int| 0 <= j < lo ==> (#[trigger] self.all_tasks[j]).uid < uid,
                forall|j: int|
                    hi <= j < self.all_tasks.len() ==> (#[trigger] self.all_tasks[j]).uid > uid,
            decreases hi - lo,
        {
            let mid = lo + (hi - lo) / 2;
            let here = self.all_tasks[mid].uid;
            if here == uid {
                proof {
                    lemma_task_map_at(self.all_tasks@, mid as int);
                }
                return Some(mid);
            } else if here < uid {
                proof {
                    assert forall|j: int| 0 <= j < mid + 1 implies (
                    #[trigger] self.all_tasks[j]).uid < uid by {
                        if j < mid {
                            assert(self.all_tasks[j].uid < self.all_tasks[mid as int].uid);
                        }
                    }
                }
                lo = mid + 1;
            } else {
                proof {
                    assert forall|j: int| mid <= j < self.all_tasks.len() implies (
                    #[trigger] self.all_tasks[j]).uid > uid by {
                        if mid < j {
                            assert(self.all_tasks[mid as int].uid < self.all_tasks[j].uid);
                        }
                    }
                }
                hi = mid;
            }
        }
        None
    }

    /// A task is on record under its own identifier.
    pub proof fn lemma_uid(&self, uid: TaskId)
        requires
            self.wf(),
            self.tasks().contains_key(uid),
        ensures
            self.tasks()[uid].uid == uid,
    {
        let i = choose|i: int|
            0 <= i < self.all_tasks.len() && (#[trigger] self.all_tasks[i]).uid == uid;
        lemma_task_map_at(self.all_tasks@, i);
    }

    /// The task with this identifier, if it is on record.
    pub fn get_task(&self, uid: TaskId) -> (r: Option<&Task>)
        requires
            self.wf(),
        ensures
            match r {
                Some(task) => self.tasks().contains_key(uid) && self.tasks()[uid] == task@
                    && task.uid == uid,
                None => !self.tasks().contains_key(uid),
            },
    {
        match self.position(uid) {
            Some(i) => Some(&self.all_tasks[i]),
            None => None,
        }
    }

    /// One more than the greatest identifier on record, if anything is on record.
    pub fn last_task_id(&self) -> (r: Result<Option<TaskId>, Error>)
        requires
            self.wf(),
        ensures
            match r {
                Ok(Some(next)) => next == self.next_uid() && next > 0,
                Ok(None) => self.next_uid() == 0,
                Err(e) => e == Error::TaskIdsExhausted && self.next_uid() == u32::MAX + 1,
            },
    {
        let n = self.all_tasks.len();
        if n == 0 {
            Ok(None)
        } else {
            let last = self.all_tasks[n - 1].uid;
            if last == u32::MAX {
                Err(Error::TaskIdsExhausted)
            } else {
                Ok(Some(last + 1))
            }
        }
    }

    /// The identifier that the next task gets.
    pub fn next_task_id(&self) -> (r: Result<TaskId, Error>)
        requires
            self.wf(),
        ensures
            match r {
                Ok(next) => next == self.next_uid(),
                Err(e) => e == Error::TaskIdsExhausted && self.next_uid() == u32::MAX + 1,
            },
    {
        match self.last_task_id() {
            Ok(Some(next)) => Ok(next),
            Ok(None) => Ok(0),
            Err(e) => Err(e),
        }
    }

    /// Puts a new record at the end of the queue and files it. Its identifier must
    /// be above all those on record.
    pub fn push_task(&mut self, task: Task)
        requires
            old(self).wf(),
            task.uid >= old(self).next_uid(),
        ensures
            final(self).wf(),
            final(self).tasks() == old(self).tasks().insert(task.uid, task@),
            final(self).next_uid() == task.uid + 1,
            keeps_history(old(self).tasks(), final(self).tasks()),
    {
        proof {
            old(self).lemma_next_uid();
            assert forall|i: int| 0 <= i < old(self).all_tasks.len() implies (
            #[trigger] old(self).all_tasks[i]).uid < task.uid by {
                lemma_task_map_at(old(self).all_tasks@, i);
            }
            lemma_task_map_push(old(self).all_tasks@, task);
            assert(old(self).indices.agrees(task.uid, lookup(old(self).tasks(), task.uid)));
        }
        self.indices.file(&task);
        let ghost uid = task.uid;
        self.all_tasks.push(task);
        proof {
            assert forall|id: TaskId| #[trigger]
                self.indices.agrees(id, lookup(self.tasks(), id)) by {
                if id != uid {
                    assert(old(self).indices.agrees(id, lookup(old(self).tasks(), id)));
                    assert(lookup(self.tasks(), id) == lookup(old(self).tasks(), id));
                }
            }
        }
    }

    /// Replaces the record of a task and files it anew.
    ///
    /// Fails with `CorruptedTaskQueue` when no task with this identifier is on record,
    /// and with `IllegalTaskUpdate` when the new record is no [`legal_update`] of the
    /// one on record. On failure nothing changes.
    pub fn update_task(&mut self, task: &Task) -> (r: Result<(), Error>)
        requires
            old(self).wf(),
        ensures
            final(self).wf(),
            match r {
                Ok(()) => old(self).tasks().contains_key(task.uid) && legal_update(
                    old(self).tasks()[task.uid],
                    task@,
                ) && final(self).tasks() == old(self).tasks().insert(task.uid, task@),
                Err(e) => *final(self) == *old(self) && if !old(self).tasks().contains_key(
                    task.uid,
                ) {
                    e == Error::CorruptedTaskQueue
                } else {
                    e == Error::IllegalTaskUpdate && !legal_update(
                        old(self).tasks()[task.uid],
                        task@,
                    )
                },
            },
            keeps_history(old(self).tasks(), final(self).tasks()),
    {
        let i = match self.position(task.uid) {
            Some(i) => i,
            None => {
                return Err(Error::CorruptedTaskQueue);
            },
        };
        let legal = {
            let old_task = &self.all_tasks[i];
            old_task.enqueued_at == task.enqueued_at && (old_task.started_at.is_none() || (
            task.started_at.is_some() && old_task.started_at.unwrap() == task.started_at.unwrap()))
                && (old_task.finished_at.is_none() || (task.finished_at.is_some()
                && old_task.finished_at.unwrap() == task.finished_at.unwrap())) && (
            !old_task.status.terminal() || old_task.status == task.status)
        };
        if !legal {
            return Err(Error::IllegalTaskUpdate);
        }
        let ghost uid = task.uid;
        proof {
            assert(self.indices.agrees(uid, lookup(self.tasks(), uid)));
            lemma_task_map_update(self.all_tasks@, i as int, *task);
        }
        self.indices.unfile(&self.all_tasks[i]);
        self.indices.file(task);
        self.all_tasks[i] = task.clone();
        proof {
            lemma_task_map_update(old(self).all_tasks@, i as int, self.all_tasks[i as int]);
            assert(self.all_tasks@ == old(self).all_tasks@.update(i as int, self.all_tasks[i as int]));
            assert forall|id: TaskId| #[trigger]
                self.indices.agrees(id, lookup(self.tasks(), id)) by {
                if id != uid {
                    assert(old(self).indices.agrees(id, lookup(old(self).tasks(), id)));
                    assert(lookup(self.tasks(), id) == lookup(old(self).tasks(), id));
                }
            }
        }
        Ok(())
    }

    /// A queue of the given records, as they are read back from storage: the
    /// tables are built anew from the records.
    ///
    /// Fails with `CorruptedTaskQueue` when the records are not in strictly
    /// ascending order of identifier.
    pub fn restore(tasks: Vec<Task>) -> (r: Result<TaskQueue, Error>)
        ensures
            r is Ok <==> uids_ascend(task_views(tasks@)),
            match r {
                Ok(queue) => queue.wf() && queue.tasks() == overwritten(
                    Map::empty(),
                    task_views(tasks@),
                    tasks.len() as int,
                ),
                Err(e) => e == Error::CorruptedTaskQueue,
            },
    {
        let ghost v = task_views(tasks@);
        let mut queue = TaskQueue::new();
        let mut i: usize = 0;
        while i < tasks.len()
            invariant
                i <= tasks.len(),
                v == task_views(tasks@),
                queue.wf(),
                queue.tasks() == overwritten(Map::empty(), v, i as int),
                forall|a: int, b: int| 0 <= a < b < i ==> (#[trigger] v[a]).uid < (#[trigger] v[b]).uid,
                i > 0 ==> queue.next_uid() == v[i - 1].uid + 1,
                i == 0 ==> queue.next_uid() == 0,
            decreases tasks.len() - i,
        {
            assert(v[i as int] == tasks[i as int]@);
            if i > 0 && tasks[i - 1].uid >= tasks[i].uid {
                proof {
                    assert(v[i - 1] == tasks[i - 1]@);
                    assert(!(v[i - 1].uid < v[i as int].uid));
                }
                return Err(Error::CorruptedTaskQueue);
            }
            proof {
                if i > 0 {
                    assert(v[i - 1] == tasks[i - 1]@);
                }
                assert forall|a: int, b: int| 0 <= a < b < i + 1 implies (#[trigger] v[a]).uid < (
                #[trigger] v[b]).uid by {
                    if b == i && a < i - 1 {
                        assert(v[a].uid < v[i - 1].uid);
                    }
                }
            }
            queue.push_task(tasks[i].clone());
            proof {
                assert(queue.all_tasks@.last().uid == v[i as int].uid);
            }
            i += 1;
        }
        Ok(queue)
    }

    /// Whether the record may take the place of the record of its task.
    ///
    /// Fails as [`TaskQueue::update_task`] would, and changes nothing.
    pub fn can_update(&self, task: &Task) -> (r: Result<(), Error>)
        requires
            self.wf(),
        ensures
            match r {
                Ok(()) => self.tasks().contains_key(task.uid) && legal_update(
                    self.tasks()[task.uid],
                    task@,
                ),
                Err(e) => if !self.tasks().contains_key(task.uid) {
                    e == Error::CorruptedTaskQueue
                } else {
                    e == Error::IllegalTaskUpdate && !legal_update(self.tasks()[task.uid], task@)
                },
            },
    {
        let i = match self.position(task.uid) {
            Some(i) => i,
            None => {
                return Err(Error::CorruptedTaskQueue);
            },
        };
        let old_task = &self.all_tasks[i];
        let legal = old_task.enqueued_at == task.enqueued_at && (old_task.started_at.is_none() || (
        task.started_at.is_some() && old_task.started_at.unwrap() == task.started_at.unwrap())) && (
        old_task.finished_at.is_none() || (task.finished_at.is_some()
            && old_task.finished_at.unwrap() == task.finished_at.unwrap())) && (
        !old_task.status.terminal() || old_task.status == task.status);
        if legal {
            Ok(())
        } else {
            Err(Error::IllegalTaskUpdate)
        }
    }

    /// Replaces the records of several tasks at once, or of none.
    ///
    /// The records must come in ascending order of identifier. Fails with
    /// `CorruptedTaskQueue` when they do not or when one of the tasks is not on
    /// record, and else with `IllegalTaskUpdate` when one of the changes is no
    /// [`legal_update`]. On failure nothing changes.
    pub fn commit_tasks(&mut self, tasks: &Vec<Task>) -> (r: Result<(), Error>)
        requires
            old(self).wf(),
        ensures
            final(self).wf(),
            keeps_history(old(self).tasks(), final(self).tasks()),
            r is Ok <==> all_legal(old(self).tasks(), task_views(tasks@)),
            match r {
                Ok(()) => final(self).tasks() == overwritten(
                    old(self).tasks(),
                    task_views(tasks@),
                    tasks.len() as int,
                ),
                Err(e) => *final(self) == *old(self) && (e == Error::CorruptedTaskQueue || e
                    == Error::IllegalTaskUpdate),
            },
    {
        let mut i: usize = 0;
        while i < tasks.len()
            invariant
                i <= tasks.len(),
                *self == *old(self),
                self.wf(),
                forall|a: int, b: int|
                    0 <= a < b < i ==> (#[trigger] tasks[a]).uid < (#[trigger] tasks[b]).uid,
                forall|j: int|
                    0 <= j < i ==> self.tasks().contains_key((#[trigger] tasks[j]).uid)
                        && legal_update(self.tasks()[tasks[j].uid], tasks[j]@),
            decreases tasks.len() - i,
        {
            if i > 0 && tasks[i - 1].uid >= tasks[i].uid {
                proof {
                    let v = task_views(tasks@);
                    assert(!(v[i - 1].uid < v[i as int].uid));
                }
                return Err(Error::CorruptedTaskQueue);
            }
            match self.can_update(&tasks[i]) {
                Ok(()) => {},
                Err(e) => {
                    proof {
                        let v = task_views(tasks@);
                        assert(v[i as int] == tasks[i as int]@);
                    }
                    return Err(e);
                },
            }
            proof {
                assert forall|a: int, b: int| 0 <= a < b < i + 1 implies (#[trigger] tasks[a]).uid
                    < (#[trigger] tasks[b]).uid by {
                    if b == i && a < i - 1 {
                        assert(tasks[a].uid < tasks[i - 1].uid);
                    }
                }
            }
            i += 1;
        }
        let ghost v = task_views(tasks@);
        proof {
            assert forall|a: int, b: int| 0 <= a < b < v.len() implies (#[trigger] v[a]).uid < (
            #[trigger] v[b]).uid by {
                assert(tasks[a].uid < tasks[b].uid);
            }
            assert forall|j: int| 0 <= j < v.len() implies old(self).tasks().contains_key(
                (#[trigger] v[j]).uid,
            ) && legal_update(old(self).tasks()[v[j].uid], v[j]) by {
                assert(old(self).tasks().contains_key(tasks[j].uid));
            }
        }
        let mut k: usize = 0;
        while k < tasks.len()
            invariant
                k <= tasks.len(),
                self.wf(),
                v == task_views(tasks@),
                all_legal(old(self).tasks(), v),
                keeps_history(old(self).tasks(), self.tasks()),
                self.tasks() == overwritten(old(self).tasks(), v, k as int),
            decreases tasks.len() - k,
        {
            proof {
                assert(v[k as int] == tasks[k as int]@);
                lemma_overwritten(old(self).tasks(), v, k as int, tasks[k as int].uid);
                assert forall|j: int| 0 <= j < k implies (#[trigger] v[j]).uid
                    != tasks[k as int].uid by {
                    assert(v[j].uid < v[k as int].uid);
                }
            }
            match self.update_task(&tasks[k]) {
                Ok(()) => {},
                Err(_) => {
                    assert(false);
                },
            }
            k += 1;
        }
        Ok(())
    }

    /// Takes the record of a task out of the queue. A task that is not on record is
    /// passed over; the result says whether it was there.
    pub fn remove_task(&mut self, uid: TaskId) -> (r: bool)
        requires
            old(self).wf(),
        ensures
            final(self).wf(),
            r == old(self).tasks().contains_key(uid),
            final(self).tasks() == old(self).tasks().remove(uid),
    {
        let i = match self.position(uid) {
            Some(i) => i,
            None => {
                assert(self.tasks() =~= old(self).tasks().remove(uid));
                return false;
            },
        };
        proof {
            assert(self.indices.agrees(uid, lookup(self.tasks(), uid)));
            lemma_task_map_remove(self.all_tasks@, i as int);
        }
        self.indices.unfile(&self.all_tasks[i]);
        self.all_tasks.remove(i);
        proof {
            assert forall|id: TaskId| #[trigger]
                self.indices.agrees(id, lookup(self.tasks(), id)) by {
                if id != uid {
                    assert(old(self).indices.agrees(id, lookup(old(self).tasks(), id)));
                    assert(lookup(self.tasks(), id) == lookup(old(self).tasks(), id));
                }
            }
        }
        true
    }

    /// What is filed under a status.
    pub fn get_status(&self, status: Status) -> (r: RoaringBitmap)
        requires
            self.wf(),
        ensures
            members(r) == self.by_status(status),
    {
        self.indices.status.get(&status)
    }

    /// What is filed under a kind.
    pub fn get_kind(&self, kind: Kind) -> (r: RoaringBitmap)
        requires
            self.wf(),
        ensures
            members(r) == self.by_kind(kind),
    {
        self.indices.kind.get(&kind)
    }

    /// The tasks that refer to an index.
    pub fn index_tasks(&self, index: &String) -> (r: RoaringBitmap)
        requires
            self.wf(),
        ensures
            members(r) == self.by_index(index@),
    {
        self.indices.index_tasks.get(index)
    }

    /// The tasks that a batch claimed.
    pub fn tasks_in_batch(&self, batch: u32) -> (r: RoaringBitmap)
        requires
            self.wf(),
        ensures
            members(r) == self.by_batch(batch),
    {
        self.indices.batch_to_tasks.get(&batch)
    }

    /// The tasks that a cancellation task canceled.
    pub fn canceled_by(&self, canceler: TaskId) -> (r: RoaringBitmap)
        requires
            self.wf(),
        ensures
            members(r) == self.by_canceled_by(canceler),
    {
        self.indices.canceled_by.get(&canceler)
    }

    /// Whether the task is filed under the status.
    pub fn in_status(&self, status: Status, uid: TaskId) -> (r: bool)
        requires
            self.wf(),
        ensures
            r == self.by_status(status).contains(uid),
    {
        self.indices.status.contains(&status, uid)
    }

    /// Whether the task is filed under the kind.
    pub fn in_kind(&self, kind: Kind, uid: TaskId) -> (r: bool)
        requires
            self.wf(),
        ensures
            r == self.by_kind(kind).contains(uid),
    {
        self.indices.kind.contains(&kind, uid)
    }

    /// Whether the task is filed under the index name.
    pub fn in_index(&self, index: &String, uid: TaskId) -> (r: bool)
        requires
            self.wf(),
        ensures
            r == self.by_index(index@).contains(uid),
    {
        self.indices.index_tasks.contains(index, uid)
    }

    /// Whether the task is filed under the batch.
    pub fn in_batch(&self, batch: BatchId, uid: TaskId) -> (r: bool)
        requires
            self.wf(),
        ensures
            r == self.by_batch(batch).contains(uid),
    {
        self.indices.batch_to_tasks.contains(&batch, uid)
    }

    /// Whether the task is filed under the time of enqueueing.
    pub fn enqueued_at_contains(&self, at: i128, uid: TaskId) -> (r: bool)
        requires
            self.wf(),
        ensures
            r == self.by_enqueued_at(at).contains(uid),
    {
        self.indices.enqueued_at.contains(&at, uid)
    }

    /// Whether the task is filed under the start time.
    pub fn started_at_contains(&self, at: i128, uid: TaskId) -> (r: bool)
        requires
            self.wf(),
        ensures
            r == self.by_started_at(at).contains(uid),
    {
        self.indices.started_at.contains(&at, uid)
    }

    /// Whether the task is filed under the finish time.
    pub fn finished_at_contains(&self, at: i128, uid: TaskId) -> (r: bool)
        requires
            self.wf(),
        ensures
            r == self.by_finished_at(at).contains(uid),
    {
        self.indices.finished_at.contains(&at, uid)
    }

    /// How many tasks are on record.
    pub fn len(&self) -> (r: usize)
        ensures
            r == self.spec_len(),
    {
        self.all_tasks.len()
    }

    pub closed spec fn spec_len(&self) -> nat {
        self.all_tasks@.len()
    }

    /// The task at a place in the order of identifiers.
    pub closed spec fn spec_nth(&self, i: int) -> Task {
        self.all_tasks[i]
    }

    /// The tasks on record are those found at the places of the order, lower
    /// identifiers first.
    pub proof fn lemma_nth(&self)
        requires
            self.wf(),
        ensures
            forall|i: int|
                0 <= i < self.spec_len() ==> self.tasks().contains_key(
                    (#[trigger] self.spec_nth(i)).uid,
                ) && self.tasks()[self.spec_nth(i).uid] == self.spec_nth(i)@,
            forall|uid: TaskId|
                self.tasks().contains_key(uid) ==> exists|i: int|
                    0 <= i < self.spec_len() && (#[trigger] self.spec_nth(i)).uid == uid,
            forall|i: int, j: int|
                0 <= i < j < self.spec_len() ==> (#[trigger] self.spec_nth(i)).uid < (
                #[trigger] self.spec_nth(j)).uid,
    {
        assert forall|i: int| 0 <= i < self.spec_len() implies self.tasks().contains_key(
            (#[trigger] self.spec_nth(i)).uid,
        ) && self.tasks()[self.spec_nth(i).uid] == self.spec_nth(i)@ by {
            lemma_task_map_at(self.all_tasks@, i);
        }
        assert forall|uid: TaskId| self.tasks().contains_key(uid) implies exists|i: int|
            0 <= i < self.spec_len() && (#[trigger] self.spec_nth(i)).uid == uid by {
            let i = choose|i: int|
                0 <= i < self.all_tasks.len() && (#[trigger] self.all_tasks[i]).uid == uid;
            assert(self.spec_nth(i).uid == uid);
        }
    }

    /// The task at a place in the order of identifiers.
    pub fn nth(&self, i: usize) -> (r: &Task)
        requires
            i < self.spec_len(),
        ensures
            *r == self.spec_nth(i as int),
    {
        &self.all_tasks[i]
    }

    /// The identifiers of all tasks on record.
    pub fn all_task_ids(&self) -> (r: RoaringBitmap)
        requires
            self.wf(),
        ensures
            members(r) == self.tasks().dom(),
    {
        let mut r = bitmap_new();
        let mut i: usize = 0;
        while i < self.all_tasks.len()
            invariant
                i <= self.all_tasks.len(),
                forall|id: TaskId|
                    #[trigger] members(r).contains(id) <==> exists|j: int|
                        0 <= j < i && (#[trigger] self.all_tasks[j]).uid == id,
            decreases self.all_tasks.len() - i,
        {
            let ghost prev = members(r);
            bitmap_insert(&mut r, self.all_tasks[i].uid);
            proof {
                assert forall|id: TaskId|
                    #[trigger] members(r).contains(id) <==> exists|j: int|
                        0 <= j < i + 1 && (#[trigger] self.all_tasks[j]).uid == id by {
                    if prev.contains(id) {
                        let j = choose|j: int|
                            0 <= j < i && (#[trigger] self.all_tasks[j]).uid == id;
                        assert(self.all_tasks[j].uid == id);
                    }
                    if id == self.all_tasks[i as int].uid {
                        assert(self.all_tasks[i as int].uid == id);
                    }
                    if exists|j: int| 0 <= j < i + 1 && (#[trigger] self.all_tasks[j]).uid == id {
                        let j = choose|j: int|
                            0 <= j < i + 1 && (#[trigger] self.all_tasks[j]).uid == id;
                        if j < i {
                            assert(self.all_tasks[j].uid == id);
                        }
                    }
                }
            }
            i += 1;
        }
        assert(members(r) =~= self.tasks().dom());
        r
    }

    /// Enqueues a task of the given kind at the time `now`.
    ///
    /// The task gets the next identifier and the status `Enqueued`; a cancellation or
    /// deletion keeps only the targets older than itself. Fails with
    /// `TaskIdsExhausted` when no identifier is left, else with a swap error when the
    /// swaps of the task name an index twice. On failure nothing changes.
    pub fn register(&mut self, kind: KindWithContent, now: i128) -> (r: Result<Task, Error>)
        requires
            old(self).wf(),
        ensures
            final(self).wf(),
            keeps_history(old(self).tasks(), final(self).tasks()),
            r is Ok <==> old(self).next_uid() <= u32::MAX && swaps_valid(kind@),
            match r {
                Ok(task) => task@ == enqueued(old(self).next_uid() as u32, kind@, now)
                    && final(self).tasks() == old(self).tasks().insert(task.uid, task@),
                Err(e) => *final(self) == *old(self) && if old(self).next_uid() > u32::MAX {
                    e == Error::TaskIdsExhausted
                } else {
                    e is SwapDuplicateIndexFound || e is SwapDuplicateIndexesFound
                },
            },
    {
        let uid = match self.next_task_id() {
            Ok(uid) => uid,
            Err(e) => {
                return Err(e);
            },
        };
        let details = kind.default_details();
        let mut task = Task {
            uid,
            batch_uid: None,
            enqueued_at: now,
            started_at: None,
            finished_at: None,
            error: None,
            canceled_by: None,
            details,
            status: Status::Enqueued,
            kind,
        };
        match check_index_swap_validity(&task) {
            Ok(()) => {},
            Err(e) => {
                proof {
                    let names = swapped_names(kind@);
                    if e is SwapDuplicateIndexFound {
                        let name = e->SwapDuplicateIndexFound_0;
                        assert(occurs_twice(names, name@, names.len() as int));
                    } else if e is SwapDuplicateIndexesFound {
                        let list = e->SwapDuplicateIndexesFound_0;
                        assert(list[0]@ == list[0]@);
                        assert(crate::utils::holds_text(list@, list[0]@));
                        assert(occurs_twice(names, list[0]@, names.len() as int));
                    }
                }
                return Err(e);
            },
        }
        filter_out_references_to_newer_tasks(&mut task);
        let copy = task.clone();
        self.push_task(task);
        Ok(copy)
    }

    /// The tasks with the given identifiers, in the order given.
    ///
    /// Fails with `CorruptedTaskQueue` when one of them is not on record.
    pub fn get_existing_tasks(&self, tasks: &Vec<TaskId>) -> (r: Result<Vec<Task>, Error>)
        requires
            self.wf(),
        ensures
            r is Ok <==> forall|i: int|
                0 <= i < tasks.len() ==> self.tasks().contains_key(#[trigger] tasks[i]),
            match r {
                Ok(found) => found.len() == tasks.len() && forall|i: int|
                    0 <= i < tasks.len() ==> (#[trigger] found[i])@ == self.tasks()[tasks[i]],
                Err(e) => e == Error::CorruptedTaskQueue,
            },
    {
        let mut found: Vec<Task> = Vec::new();
        let mut i: usize = 0;
        while i < tasks.len()
            invariant
                i <= tasks.len(),
                self.wf(),
                found.len() == i,
                forall|j: int| 0 <= j < i ==> self.tasks().contains_key(#[trigger] tasks[j]),
                forall|j: int| 0 <= j < i ==> (#[trigger] found[j])@ == self.tasks()[tasks[j]],
            decreases tasks.len() - i,
        {
            match self.get_task(tasks[i]) {
                Some(task) => {
                    found.push(task.clone());
                },
                None => {
                    return Err(Error::CorruptedTaskQueue);
                },
            }
            i += 1;
        }
        Ok(found)
    }

    /// The identifiers of the tasks on record that meet the query, in ascending order.
    pub open spec fn is_match_list(&self, query: &Query, ids: Seq<TaskId>) -> bool {
        &&& forall|i: int, j: int| 0 <= i < j < ids.len() ==> ids[i] < ids[j]
        &&& forall|uid: TaskId|
            ids.contains(uid) <==> self.tasks().contains_key(uid) && query.matches(
                self.tasks()[uid],
            )
    }

    /// One page of the tasks that meet a query, newest first: at most `limit` of
    /// them, and the identifier of the task with which the next page starts, if
    /// there is more. Put into the query as `from`, it gives the next page.
    pub fn list_tasks(&self, query: &Query, limit: usize) -> (r: (Vec<Task>, Option<TaskId>))
        requires
            self.wf(),
        ensures
            exists|ids: Seq<TaskId>| #[trigger]
                self.is_match_list(query, ids) && {
                    let n = ids.len() as int;
                    let k = if limit <= n {
                        limit as int
                    } else {
                        n
                    };
                    &&& r.0.len() == k
                    &&& forall|i: int| 0 <= i < k ==> (#[trigger] r.0[i])@ == self.tasks()[ids[n - 1 - i]]
                    &&& r.1 == if k < n {
                        Some(ids[n - 1 - k])
                    } else {
                        None
                    }
                },
    {
        let found = self.filter_tasks(query);
        let ids = crate::bitmap::bitmap_to_vec(&found);
        proof {
            assert forall|uid: TaskId|
                ids@.contains(uid) <==> self.tasks().contains_key(uid) && query.matches(
                    self.tasks()[uid],
                ) by {
                assert(members(found).contains(uid) <==> ids@.contains(uid));
            }
            assert(self.is_match_list(query, ids@));
        }
        let n = ids.len();
        let k = if limit <= n {
            limit
        } else {
            n
        };
        let mut page: Vec<Task> = Vec::new();
        let mut i: usize = 0;
        while i < k
            invariant
                i <= k <= n,
                n == ids.len(),
                self.wf(),
                page.len() == i,
                forall|uid: TaskId| ids@.contains(uid) ==> self.tasks().contains_key(uid),
                forall|j: int| 0 <= j < i ==> (#[trigger] page[j])@ == self.tasks()[ids[n - 1 - j]],
            decreases k - i,
        {
            let uid = ids[n - 1 - i];
            assert(ids@.contains(uid));
            match self.get_task(uid) {
                Some(task) => {
                    page.push(task.clone());
                },
                None => {
                    assert(false);
                },
            }
            i += 1;
        }
        let next = if k < n {
            Some(ids[n - 1 - k])
        } else {
            None
        };
        (page, next)
    }

    /// The identifiers of the tasks on record that meet the query.
    pub fn filter_tasks(&self, query: &Query) -> (r: RoaringBitmap)
        requires
            self.wf(),
        ensures
            forall|uid: TaskId|
                #[trigger] members(r).contains(uid) <==> self.tasks().contains_key(uid)
                    && query.matches(self.tasks()[uid]),
    {
        let mut r = self.all_task_ids();
        let ghost m = self.tasks();
        proof {
            assert forall|uid: TaskId| #[trigger] self.indices.agrees(uid, lookup(m, uid)) by {}
        }
        match &query.statuses {
            Some(list) => {
                let found = self.indices.status.union_over(list);
                bitmap_intersect_with(&mut r, &found);
                proof {
                    assert forall|uid: TaskId|
                        #[trigger] members(r).contains(uid) <==> m.contains_key(uid)
                            && query.status_matches(m[uid]) by {
                        assert(self.indices.agrees(uid, lookup(m, uid)));
                        if members(found).contains(uid) {
                            let i = choose|i: int|
                                0 <= i < list.len() && self.indices.status.has(
                                    (#[trigger] list[i]).key(),
                                    uid,
                                );
                            assert(list[i] == m[uid].status);
                        }
                        if m.contains_key(uid) && query.status_matches(m[uid]) {
                            let i = choose|i: int|
                                0 <= i < list.len() && #[trigger] list[i] == m[uid].status;
                            assert(self.indices.status.has(list[i].key(), uid));
                        }
                    }
                }
            },
            None => {},
        }
        match &query.types {
            Some(list) => {
                let ghost prev = members(r);
                let found = self.indices.kind.union_over(list);
                bitmap_intersect_with(&mut r, &found);
                proof {
                    assert forall|uid: TaskId|
                        #[trigger] members(r).contains(uid) <==> prev.contains(uid)
                            && query.kind_matches(m[uid]) by {
                        assert(self.indices.agrees(uid, lookup(m, uid)));
                        if members(found).contains(uid) {
                            let i = choose|i: int|
                                0 <= i < list.len() && self.indices.kind.has(
                                    (#[trigger] list[i]).key(),
                                    uid,
                                );
                            assert(list[i] == m[uid].kind.as_kind());
                        }
                        if prev.contains(uid) && query.kind_matches(m[uid]) {
                            let i = choose|i: int|
                                0 <= i < list.len() && #[trigger] list[i] == m[uid].kind.as_kind();
                            assert(self.indices.kind.has(list[i].key(), uid));
                        }
                    }
                }
            },
            None => {},
        }
        match &query.index_uids {
            Some(list) => {
                let ghost prev = members(r);
                let found = self.indices.index_tasks.union_over(list);
                bitmap_intersect_with(&mut r, &found);
                proof {
                    assert forall|uid: TaskId|
                        #[trigger] members(r).contains(uid) <==> prev.contains(uid)
                            && query.index_matches(m[uid]) by {
                        assert(self.indices.agrees(uid, lookup(m, uid)));
                        if members(found).contains(uid) {
                            let i = choose|i: int|
                                0 <= i < list.len() && self.indices.index_tasks.has(
                                    (#[trigger] list[i]).key(),
                                    uid,
                                );
                            assert(m[uid].kind.indexes().contains(list[i]@));
                        }
                        if prev.contains(uid) && query.index_matches(m[uid]) {
                            let i = choose|i: int|
                                0 <= i < list.len() && m[uid].kind.indexes().contains(
                                    (#[trigger] list[i])@,
                                );
                            assert(self.indices.index_tasks.has(list[i].key(), uid));
                        }
                    }
                }
            },
            None => {},
        }
        match &query.uids {
            Some(list) => {
                let ghost prev = members(r);
                let mut wanted = bitmap_new();
                let mut i: usize = 0;
                while i < list.len()
                    invariant
                        i <= list.len(),
                        forall|uid: TaskId|
                            #[trigger] members(wanted).contains(uid) <==> exists|j: int|
                                0 <= j < i && #[trigger] list[j] == uid,
                    decreases list.len() - i,
                {
                    let ghost before = members(wanted);
                    bitmap_insert(&mut wanted, list[i]);
                    proof {
                        assert forall|uid: TaskId|
                            #[trigger] members(wanted).contains(uid) <==> exists|j: int|
                                0 <= j < i + 1 && #[trigger] list[j] == uid by {
                            if before.contains(uid) {
                                let j = choose|j: int| 0 <= j < i && #[trigger] list[j] == uid;
                                assert(list[j] == uid);
                            }
                            if uid == list[i as int] {
                                assert(list[i as int] == uid);
                            }
                            if exists|j: int| 0 <= j < i + 1 && #[trigger] list[j] == uid {
                                let j = choose|j: int| 0 <= j < i + 1 && #[trigger] list[j] == uid;
                                if j < i {
                                    assert(list[j] == uid);
                                }
                            }
                        }
                    }
                    i += 1;
                }
                bitmap_intersect_with(&mut r, &wanted);
                proof {
                    assert forall|uid: TaskId|
                        #[trigger] members(r).contains(uid) <==> prev.contains(uid)
                            && query.uid_matches(m[uid]) by {
                        assert(self.indices.agrees(uid, lookup(m, uid)));
                        if prev.contains(uid) {
                            assert(m[uid].uid == uid) by {
                                let j = choose|j: int|
                                    0 <= j < self.all_tasks.len() && (
                                    #[trigger] self.all_tasks[j]).uid == uid;
                                lemma_task_map_at(self.all_tasks@, j);
                            }
                        }
                    }
                }
            },
            None => {},
        }
        match &query.canceled_by {
            Some(list) => {
                let ghost prev = members(r);
                let found = self.indices.canceled_by.union_over(list);
                bitmap_intersect_with(&mut r, &found);
                proof {
                    assert forall|uid: TaskId|
                        #[trigger] members(r).contains(uid) <==> prev.contains(uid)
                            && query.canceler_matches(m[uid]) by {
                        assert(self.indices.agrees(uid, lookup(m, uid)));
                        if members(found).contains(uid) {
                            let i = choose|i: int|
                                0 <= i < list.len() && self.indices.canceled_by.has(
                                    (#[trigger] list[i]).key(),
                                    uid,
                                );
                            assert(m[uid].canceled_by == Some(list[i]));
                        }
                        if prev.contains(uid) && query.canceler_matches(m[uid]) {
                            let i = choose|i: int|
                                0 <= i < list.len() && m[uid].canceled_by == Some(
                                    #[trigger] list[i],
                                );
                            assert(self.indices.canceled_by.has(list[i].key(), uid));
                        }
                    }
                }
            },
            None => {},
        }
        match &query.batch_uids {
            Some(list) => {
                let ghost prev = members(r);
                let found = self.indices.batch_to_tasks.union_over(list);
                bitmap_intersect_with(&mut r, &found);
                proof {
                    assert forall|uid: TaskId|
                        #[trigger] members(r).contains(uid) <==> prev.contains(uid)
                            && query.batch_matches(m[uid]) by {
                        assert(self.indices.agrees(uid, lookup(m, uid)));
                        if members(found).contains(uid) {
                            let i = choose|i: int|
                                0 <= i < list.len() && self.indices.batch_to_tasks.has(
                                    (#[trigger] list[i]).key(),
                                    uid,
                                );
                            assert(m[uid].batch_uid == Some(list[i]));
                        }
                        if prev.contains(uid) && query.batch_matches(m[uid]) {
                            let i = choose|i: int|
                                0 <= i < list.len() && m[uid].batch_uid == Some(#[trigger] list[i]);
                            assert(self.indices.batch_to_tasks.has(list[i].key(), uid));
                        }
                    }
                }
            },
            None => {},
        }
        let ghost prev = members(r);
        keep_ids_within_datetimes(
            &mut r,
            &self.indices.enqueued_at,
            query.after_enqueued_at,
            query.before_enqueued_at,
        );
        proof {
            assert forall|uid: TaskId|
                #[trigger] members(r).contains(uid) <==> prev.contains(uid) && time_matches(
                    Some(m[uid].enqueued_at),
                    query.after_enqueued_at,
                    query.before_enqueued_at,
                ) by {
                assert(self.indices.agrees(uid, lookup(m, uid)));
                if prev.contains(uid) && in_window(
                    &self.indices.enqueued_at,
                    uid,
                    query.after_enqueued_at,
                    query.before_enqueued_at,
                ) && !(query.after_enqueued_at is None && query.before_enqueued_at is None) {
                    let at = choose|at: i128|
                        within(at, query.after_enqueued_at, query.before_enqueued_at)
                            && #[trigger] self.indices.enqueued_at.has(at, uid);
                    assert(m[uid].enqueued_at == at);
                }
                if prev.contains(uid) && time_matches(
                    Some(m[uid].enqueued_at),
                    query.after_enqueued_at,
                    query.before_enqueued_at,
                ) {
                    assert(self.indices.enqueued_at.has(m[uid].enqueued_at, uid));
                }
            }
        }
        let ghost prev2 = members(r);
        keep_ids_within_datetimes(
            &mut r,
            &self.indices.started_at,
            query.after_started_at,
            query.before_started_at,
        );
        proof {
            assert forall|uid: TaskId|
                #[trigger] members(r).contains(uid) <==> prev2.contains(uid) && time_matches(
                    m[uid].started_at,
                    query.after_started_at,
                    query.before_started_at,
                ) by {
                assert(self.indices.agrees(uid, lookup(m, uid)));
                if prev2.contains(uid) && in_window(
                    &self.indices.started_at,
                    uid,
                    query.after_started_at,
                    query.before_started_at,
                ) && !(query.after_started_at is None && query.before_started_at is None) {
                    let at = choose|at: i128|
                        within(at, query.after_started_at, query.before_started_at)
                            && #[trigger] self.indices.started_at.has(at, uid);
                    assert(m[uid].started_at == Some(at));
                }
                if prev2.contains(uid) && time_matches(
                    m[uid].started_at,
                    query.after_started_at,
                    query.before_started_at,
                ) && m[uid].started_at is Some {
                    assert(self.indices.started_at.has(m[uid].started_at->0, uid));
                }
            }
        }
        let ghost prev3 = members(r);
        keep_ids_within_datetimes(
            &mut r,
            &self.indices.finished_at,
            query.after_finished_at,
            query.before_finished_at,
        );
        proof {
            assert forall|uid: TaskId|
                #[trigger] members(r).contains(uid) <==> prev3.contains(uid) && time_matches(
                    m[uid].finished_at,
                    query.after_finished_at,
                    query.before_finished_at,
                ) by {
                assert(self.indices.agrees(uid, lookup(m, uid)));
                if prev3.contains(uid) && in_window(
                    &self.indices.finished_at,
                    uid,
                    query.after_finished_at,
                    query.before_finished_at,
                ) && !(query.after_finished_at is None && query.before_finished_at is None) {
                    let at = choose|at: i128|
                        within(at, query.after_finished_at, query.before_finished_at)
                            && #[trigger] self.indices.finished_at.has(at, uid);
                    assert(m[uid].finished_at == Some(at));
                }
                if prev3.contains(uid) && time_matches(
                    m[uid].finished_at,
                    query.after_finished_at,
                    query.before_finished_at,
                ) && m[uid].finished_at is Some {
                    assert(self.indices.finished_at.has(m[uid].finished_at->0, uid));
                }
            }
        }
        match query.from {
            Some(from) => {
                if from < u32::MAX {
                    let ghost prev4 = members(r);
                    bitmap_remove_from(&mut r, from + 1);
                    proof {
                        assert forall|uid: TaskId|
                            #[trigger] members(r).contains(uid) <==> prev4.contains(uid) && uid
                                <= from by {}
                    }
                }
            },
            None => {},
        }
        proof {
            assert forall|uid: TaskId|
                #[trigger] members(r).contains(uid) <==> m.contains_key(uid) && query.matches(
                    m[uid],
                ) by {
                if m.contains_key(uid) {
                    let j = choose|j: int|
                        0 <= j < self.all_tasks.len() && (#[trigger] self.all_tasks[j]).uid == uid;
                    lemma_task_map_at(self.all_tasks@, j);
                    assert(m[uid].uid == uid);
                }
            }
        }
        r
    }
}

} // verus!

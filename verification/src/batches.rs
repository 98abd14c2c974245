//! Batches: groups of tasks processed together.

use crate::clock::now_nanos;
use crate::table::TableKey;
use crate::tally::{bumped, count_more, Counter, KeySet};
use crate::tasks::{BatchId, Details, DetailsView, Kind, Status, Task, TaskId, TaskView};
use vstd::prelude::*;

verus! {

/// The sum of two optional counters; a counter that nothing reported stays absent.
pub open spec fn plus(a: Option<u64>, b: Option<u64>) -> Option<u64> {
    match (a, b) {
        (None, None) => None,
        (Some(x), None) => Some(x),
        (None, Some(y)) => Some(y),
        (Some(x), Some(y)) => Some(
            if x + y <= u64::MAX {
                (x + y) as u64
            } else {
                u64::MAX
            },
        ),
    }
}

pub fn add_counts(a: Option<u64>, b: Option<u64>) -> (r: Option<u64>)
    ensures
        r == plus(a, b),
{
    match (a, b) {
        (None, None) => None,
        (Some(x), None) => Some(x),
        (None, Some(y)) => Some(y),
        (Some(x), Some(y)) => Some(x.saturating_add(y)),
    }
}

/// The counters of the tasks of a batch, added up.
#[derive(Clone, Copy, Debug, PartialEq, Eq, Structural)]
pub struct BatchDetails {
    pub received_documents: Option<u64>,
    pub indexed_documents: Option<u64>,
    pub edited_documents: Option<u64>,
    pub provided_ids: Option<u64>,
    pub deleted_documents: Option<u64>,
    pub matched_tasks: Option<u64>,
    pub canceled_tasks: Option<u64>,
    pub deleted_tasks: Option<u64>,
}

impl BatchDetails {
    pub open spec fn spec_empty() -> BatchDetails {
        BatchDetails {
            received_documents: None,
            indexed_documents: None,
            edited_documents: None,
            provided_ids: None,
            deleted_documents: None,
            matched_tasks: None,
            canceled_tasks: None,
            deleted_tasks: None,
        }
    }

    /// What one task's details contribute.
    pub open spec fn of(d: DetailsView) -> BatchDetails {
        let e = BatchDetails::spec_empty();
        match d {
            DetailsView::DocumentAdditionOrUpdate {
                received_documents,
                indexed_documents,
            } => BatchDetails {
                received_documents: Some(received_documents),
                indexed_documents,
                ..e
            },
            DetailsView::DocumentEdition { edited_documents, .. } => BatchDetails {
                edited_documents,
                ..e
            },
            DetailsView::DocumentDeletion { provided_ids, deleted_documents } => BatchDetails {
                provided_ids: Some(provided_ids),
                deleted_documents,
                ..e
            },
            DetailsView::DocumentDeletionByFilter { deleted_documents, .. } => BatchDetails {
                deleted_documents,
                ..e
            },
            DetailsView::ClearAll { deleted_documents } => BatchDetails { deleted_documents, ..e },
            DetailsView::TaskCancelation { matched_tasks, canceled_tasks, .. } => BatchDetails {
                matched_tasks: Some(matched_tasks),
                canceled_tasks,
                ..e
            },
            DetailsView::TaskDeletion { matched_tasks, deleted_tasks, .. } => BatchDetails {
                matched_tasks: Some(matched_tasks),
                deleted_tasks,
                ..e
            },
            _ => e,
        }
    }

    pub open spec fn merged(self, other: BatchDetails) -> BatchDetails {
        BatchDetails {
            received_documents: plus(self.received_documents, other.received_documents),
            indexed_documents: plus(self.indexed_documents, other.indexed_documents),
            edited_documents: plus(self.edited_documents, other.edited_documents),
            provided_ids: plus(self.provided_ids, other.provided_ids),
            deleted_documents: plus(self.deleted_documents, other.deleted_documents),
            matched_tasks: plus(self.matched_tasks, other.matched_tasks),
            canceled_tasks: plus(self.canceled_tasks, other.canceled_tasks),
            deleted_tasks: plus(self.deleted_tasks, other.deleted_tasks),
        }
    }

    /// The details of a batch after one more task reported.
    pub open spec fn accumulated(self, d: Option<DetailsView>) -> BatchDetails {
        match d {
            Some(d) => self.merged(BatchDetails::of(d)),
            None => self,
        }
    }

    pub fn empty() -> (r: BatchDetails)
        ensures
            r == BatchDetails::spec_empty(),
    {
        BatchDetails {
            received_documents: None,
            indexed_documents: None,
            edited_documents: None,
            provided_ids: None,
            deleted_documents: None,
            matched_tasks: None,
            canceled_tasks: None,
            deleted_tasks: None,
        }
    }

    fn from_details(d: &Details) -> (r: BatchDetails)
        ensures
            r == BatchDetails::of(d@),
    {
        let mut r = BatchDetails::empty();
        match d {
            Details::DocumentAdditionOrUpdate { received_documents, indexed_documents } => {
                r.received_documents = Some(*received_documents);
                r.indexed_documents = *indexed_documents;
            },
            Details::DocumentEdition { edited_documents, .. } => {
                r.edited_documents = *edited_documents;
            },
            Details::DocumentDeletion { provided_ids, deleted_documents } => {
                r.provided_ids = Some(*provided_ids);
                r.deleted_documents = *deleted_documents;
            },
            Details::DocumentDeletionByFilter { deleted_documents, .. } => {
                r.deleted_documents = *deleted_documents;
            },
            Details::ClearAll { deleted_documents } => {
                r.deleted_documents = *deleted_documents;
            },
            Details::TaskCancelation { matched_tasks, canceled_tasks, .. } => {
                r.matched_tasks = Some(*matched_tasks);
                r.canceled_tasks = *canceled_tasks;
            },
            Details::TaskDeletion { matched_tasks, deleted_tasks, .. } => {
                r.matched_tasks = Some(*matched_tasks);
                r.deleted_tasks = *deleted_tasks;
            },
            _ => {},
        }
        r
    }

    /// Adds what one task reported.
    pub fn accumulate(&mut self, details: &Option<Details>)
        ensures
            *final(self) == old(self).accumulated(crate::tasks::opt_details_view(*details)),
    {
        match details {
            Some(d) => {
                let o = BatchDetails::from_details(d);
                self.received_documents = add_counts(self.received_documents, o.received_documents);
                self.indexed_documents = add_counts(self.indexed_documents, o.indexed_documents);
                self.edited_documents = add_counts(self.edited_documents, o.edited_documents);
                self.provided_ids = add_counts(self.provided_ids, o.provided_ids);
                self.deleted_documents = add_counts(self.deleted_documents, o.deleted_documents);
                self.matched_tasks = add_counts(self.matched_tasks, o.matched_tasks);
                self.canceled_tasks = add_counts(self.canceled_tasks, o.canceled_tasks);
                self.deleted_tasks = add_counts(self.deleted_tasks, o.deleted_tasks);
            },
            None => {},
        }
    }
}

/// How many tasks a batch holds, in all and by status, kind and index.
pub struct BatchStats {
    pub total_nb_tasks: u32,
    pub status: Counter<Status>,
    pub types: Counter<Kind>,
    pub index_uids: Counter<String>,
}

/// What a [`BatchStats`] stands for.
pub struct BatchStatsView {
    pub total_nb_tasks: u32,
    pub status: Map<Status, nat>,
    pub types: Map<Kind, nat>,
    pub index_uids: Map<Seq<char>, nat>,
}

impl BatchStatsView {
    pub open spec fn empty() -> BatchStatsView {
        BatchStatsView {
            total_nb_tasks: 0,
            status: Map::empty(),
            types: Map::empty(),
            index_uids: Map::empty(),
        }
    }

    /// The statistics after one more task was counted under `status`.
    pub open spec fn counted(self, status: Status, t: TaskView) -> BatchStatsView {
        BatchStatsView {
            total_nb_tasks: bumped(self.total_nb_tasks as nat) as u32,
            status: count_more(self.status, status),
            types: count_more(self.types, t.kind.as_kind()),
            index_uids: match t.kind.index_uid() {
                Some(name) => count_more(self.index_uids, name),
                None => self.index_uids,
            },
        }
    }
}

impl View for BatchStats {
    type V = BatchStatsView;

    open spec fn view(&self) -> BatchStatsView {
        BatchStatsView {
            total_nb_tasks: self.total_nb_tasks,
            status: self.status.as_map(),
            types: self.types.as_map(),
            index_uids: self.index_uids.as_map(),
        }
    }
}

impl BatchStats {
    pub open spec fn wf(&self) -> bool {
        &&& self.status.wf()
        &&& self.types.wf()
        &&& self.index_uids.wf()
    }

    pub fn new() -> (r: BatchStats)
        ensures
            r.wf(),
            r@ == BatchStatsView::empty(),
    {
        let r = BatchStats {
            total_nb_tasks: 0,
            status: Counter::new(),
            types: Counter::new(),
            index_uids: Counter::new(),
        };
        proof {
            assert(r@.status =~= Map::<Status, nat>::empty());
            assert(r@.types =~= Map::<Kind, nat>::empty());
            assert(r@.index_uids =~= Map::<Seq<char>, nat>::empty());
        }
        r
    }

    /// Counts one more task, under `status`.
    pub fn count(&mut self, status: Status, task: &Task)
        requires
            old(self).wf(),
        ensures
            final(self).wf(),
            final(self)@ == old(self)@.counted(status, task@),
    {
        if self.total_nb_tasks < u32::MAX {
            self.total_nb_tasks = self.total_nb_tasks + 1;
        }
        self.status.bump(&status);
        let kind = task.kind.as_kind();
        self.types.bump(&kind);
        match task.index_uid() {
            Some(name) => {
                self.index_uids.bump(name);
            },
            None => {},
        }
        proof {
            let goal = old(self)@.counted(status, task@);
            assert(self@.status =~= goal.status);
            assert(self@.types =~= goal.types);
            assert(self@.index_uids =~= goal.index_uids);
        }
    }

    pub fn duplicate(&self) -> (r: BatchStats)
        requires
            self.wf(),
        ensures
            r.wf(),
            r@ == self@,
    {
        let r = BatchStats {
            total_nb_tasks: self.total_nb_tasks,
            status: self.status.duplicate(),
            types: self.types.duplicate(),
            index_uids: self.index_uids.duplicate(),
        };
        proof {
            assert(r@.status =~= self@.status);
            assert(r@.types =~= self@.types);
            assert(r@.index_uids =~= self@.index_uids);
        }
        r
    }
}

/// How far the batch in progress has come.
pub struct Progress {
    pub step: String,
    pub finished_tasks: u32,
    pub total_tasks: u32,
}

pub open spec fn opt_progress_view(p: Option<Progress>) -> Option<(Seq<char>, u32, u32)> {
    match p {
        Some(p) => Some((p.step@, p.finished_tasks, p.total_tasks)),
        None => None,
    }
}

/// A processed group of tasks, as it is kept on record.
pub struct Batch {
    pub uid: BatchId,
    /// Set only on the batch in progress, when a reader asks for it.
    pub progress: Option<Progress>,
    pub details: BatchDetails,
    pub stats: BatchStats,
    pub started_at: i128,
    pub finished_at: Option<i128>,
}

/// What a [`Batch`] stands for.
pub struct BatchView {
    pub uid: BatchId,
    pub progress: Option<(Seq<char>, u32, u32)>,
    pub details: BatchDetails,
    pub stats: BatchStatsView,
    pub started_at: i128,
    pub finished_at: Option<i128>,
}

impl View for Batch {
    type V = BatchView;

    open spec fn view(&self) -> BatchView {
        BatchView {
            uid: self.uid,
            progress: opt_progress_view(self.progress),
            details: self.details,
            stats: self.stats@,
            started_at: self.started_at,
            finished_at: self.finished_at,
        }
    }
}

impl Batch {
    pub open spec fn wf(&self) -> bool {
        self.stats.wf()
    }

    pub fn duplicate(&self) -> (r: Batch)
        requires
            self.wf(),
        ensures
            r.wf(),
            r@ == self@,
    {
        Batch {
            uid: self.uid,
            progress: match &self.progress {
                Some(p) => Some(
                    Progress {
                        step: p.step.clone(),
                        finished_tasks: p.finished_tasks,
                        total_tasks: p.total_tasks,
                    },
                ),
                None => None,
            },
            details: self.details,
            stats: self.stats.duplicate(),
            started_at: self.started_at,
            finished_at: self.finished_at,
        }
    }
}

pub open spec fn min_time(a: Option<i128>, b: i128) -> i128 {
    match a {
        Some(x) => if x <= b {
            x
        } else {
            b
        },
        None => b,
    }
}

pub open spec fn max_time(a: Option<i128>, b: i128) -> i128 {
    match a {
        Some(x) => if x >= b {
            x
        } else {
            b
        },
        None => b,
    }
}

/// A batch while it is being put together and processed. It is never written as it
/// is: what is kept on record is the [`Batch`] made from it once it has finished.
pub struct ProcessingBatch {
    pub uid: BatchId,
    pub details: BatchDetails,
    pub stats: BatchStats,
    pub statuses: KeySet<Status>,
    pub kinds: KeySet<Kind>,
    pub indexes: KeySet<String>,
    pub canceled_by: KeySet<TaskId>,
    pub oldest_enqueued_at: Option<i128>,
    pub earliest_enqueued_at: Option<i128>,
    pub started_at: i128,
    pub finished_at: Option<i128>,
}

/// What a [`ProcessingBatch`] stands for.
pub struct ProcessingBatchView {
    pub uid: BatchId,
    pub details: BatchDetails,
    pub stats: BatchStatsView,
    pub statuses: Set<Status>,
    pub kinds: Set<Kind>,
    pub indexes: Set<Seq<char>>,
    pub canceled_by: Set<TaskId>,
    pub oldest_enqueued_at: Option<i128>,
    pub earliest_enqueued_at: Option<i128>,
    pub started_at: i128,
    pub finished_at: Option<i128>,
}

impl ProcessingBatchView {
    /// A batch that was just opened: it holds no task yet and counts as processing.
    pub open spec fn opened(uid: BatchId, started_at: i128) -> ProcessingBatchView {
        ProcessingBatchView {
            uid,
            details: BatchDetails::spec_empty(),
            stats: BatchStatsView::empty(),
            statuses: set![Status::Processing],
            kinds: Set::empty(),
            indexes: Set::empty(),
            canceled_by: Set::empty(),
            oldest_enqueued_at: None,
            earliest_enqueued_at: None,
            started_at,
            finished_at: None,
        }
    }

    /// The batch after it claimed the task `t`.
    pub open spec fn claimed(self, t: TaskView) -> ProcessingBatchView {
        ProcessingBatchView {
            details: self.details.accumulated(t.details),
            stats: self.stats.counted(Status::Processing, t),
            kinds: self.kinds.insert(t.kind.as_kind()),
            indexes: self.indexes.union(t.kind.indexes()),
            canceled_by: match t.canceled_by {
                Some(c) => self.canceled_by.insert(c),
                None => self.canceled_by,
            },
            oldest_enqueued_at: Some(min_time(self.oldest_enqueued_at, t.enqueued_at)),
            earliest_enqueued_at: Some(max_time(self.earliest_enqueued_at, t.enqueued_at)),
            ..self
        }
    }

    /// The batch after it claimed the first `n` of the tasks `ts`, in order.
    pub open spec fn claimed_all(self, ts: Seq<TaskView>, n: int) -> ProcessingBatchView
        decreases n,
    {
        if n <= 0 {
            self
        } else {
            self.claimed_all(ts, n - 1).claimed(ts[n - 1])
        }
    }

    /// The batch once its processing is over: its tasks are counted afresh afterwards.
    pub open spec fn closed(self, finished_at: i128) -> ProcessingBatchView {
        ProcessingBatchView {
            details: BatchDetails::spec_empty(),
            stats: BatchStatsView::empty(),
            statuses: Set::empty(),
            finished_at: Some(finished_at),
            ..self
        }
    }

    /// The batch after the outcome of the task `t` was recorded in it.
    pub open spec fn recorded(self, t: TaskView) -> ProcessingBatchView {
        ProcessingBatchView {
            details: self.details.accumulated(t.details),
            stats: self.stats.counted(t.status, t),
            statuses: self.statuses.insert(t.status),
            ..self
        }
    }

    /// The batch after the outcomes of the first `n` of the tasks `ts` were recorded
    /// in it, in order.
    pub open spec fn recorded_all(self, ts: Seq<TaskView>, n: int) -> ProcessingBatchView
        decreases n,
    {
        if n <= 0 {
            self
        } else {
            self.recorded_all(ts, n - 1).recorded(ts[n - 1])
        }
    }

    /// The record that is kept of the batch.
    pub open spec fn as_batch(self) -> BatchView {
        BatchView {
            uid: self.uid,
            progress: None,
            details: self.details,
            stats: self.stats,
            started_at: self.started_at,
            finished_at: self.finished_at,
        }
    }
}

/// Recording depends on the outcomes recorded only.
pub proof fn lemma_recorded_all_prefix(
    pb: ProcessingBatchView,
    a: Seq<TaskView>,
    b: Seq<TaskView>,
    n: int,
)
    requires
        0 <= n <= a.len(),
        n <= b.len(),
        forall|j: int| 0 <= j < n ==> a[j] == b[j],
    ensures
        pb.recorded_all(a, n) == pb.recorded_all(b, n),
    decreases n,
{
    if n > 0 {
        lemma_recorded_all_prefix(pb, a, b, n - 1);
    }
}

/// Claiming depends on the tasks claimed only.
pub proof fn lemma_claimed_all_prefix(
    pb: ProcessingBatchView,
    a: Seq<TaskView>,
    b: Seq<TaskView>,
    n: int,
)
    requires
        0 <= n <= a.len(),
        n <= b.len(),
        forall|j: int| 0 <= j < n ==> a[j] == b[j],
    ensures
        pb.claimed_all(a, n) == pb.claimed_all(b, n),
    decreases n,
{
    if n > 0 {
        lemma_claimed_all_prefix(pb, a, b, n - 1);
    }
}

/// The task `t` as it is once the batch `batch` claimed it.
pub open spec fn claimed_by(t: TaskView, batch: BatchId) -> TaskView {
    TaskView { batch_uid: Some(batch), ..t }
}

/// The task `t` as it is once the batch recorded its outcome: it carries the
/// batch's identifier and its start and finish times.
pub open spec fn stamped(t: TaskView, batch: ProcessingBatchView) -> TaskView {
    TaskView {
        batch_uid: Some(batch.uid),
        started_at: Some(batch.started_at),
        finished_at: batch.finished_at,
        ..t
    }
}

pub open spec fn task_views(tasks: Seq<Task>) -> Seq<TaskView> {
    tasks.map_values(|t: Task| t@)
}

impl View for ProcessingBatch {
    type V = ProcessingBatchView;

    open spec fn view(&self) -> ProcessingBatchView {
        ProcessingBatchView {
            uid: self.uid,
            details: self.details,
            stats: self.stats@,
            statuses: self.statuses@,
            kinds: self.kinds@,
            indexes: self.indexes@,
            canceled_by: self.canceled_by@,
            oldest_enqueued_at: self.oldest_enqueued_at,
            earliest_enqueued_at: self.earliest_enqueued_at,
            started_at: self.started_at,
            finished_at: self.finished_at,
        }
    }
}

impl ProcessingBatch {
    pub open spec fn wf(&self) -> bool {
        &&& self.stats.wf()
        &&& self.statuses.wf()
        &&& self.kinds.wf()
        &&& self.indexes.wf()
        &&& self.canceled_by.wf()
    }

    /// Opens a batch that starts at `started_at`.
    pub fn new_at(uid: BatchId, started_at: i128) -> (r: ProcessingBatch)
        ensures
            r.wf(),
            r@ == ProcessingBatchView::opened(uid, started_at),
    {
        let mut statuses = KeySet::new();
        statuses.insert(&Status::Processing);
        let r = ProcessingBatch {
            uid,
            details: BatchDetails::empty(),
            stats: BatchStats::new(),
            statuses,
            kinds: KeySet::new(),
            indexes: KeySet::new(),
            canceled_by: KeySet::new(),
            oldest_enqueued_at: None,
            earliest_enqueued_at: None,
            started_at,
            finished_at: None,
        };
        assert(r@.statuses =~= set![Status::Processing]);
        r
    }

    /// Opens a batch that starts now.
    pub fn new(uid: BatchId) -> (r: ProcessingBatch)
        ensures
            r.wf(),
            r@ == ProcessingBatchView::opened(uid, r.started_at),
    {
        ProcessingBatch::new_at(uid, now_nanos())
    }

    /// Claims one task: the batch takes note of it and the task of the batch.
    pub fn claim(&mut self, task: &mut Task)
        requires
            old(self).wf(),
        ensures
            final(self).wf(),
            final(self)@ == old(self)@.claimed(old(task)@),
            final(task)@ == claimed_by(old(task)@, old(self).uid),
    {
        task.batch_uid = Some(self.uid);
        self.stats.count(Status::Processing, task);
        let kind = task.kind.as_kind();
        self.kinds.insert(&kind);
        let names = task.indexes();
        let ghost indexes_before = self.indexes@;
        let mut i: usize = 0;
        while i < names.len()
            invariant
                i <= names.len(),
                self.indexes.wf(),
                self.uid == old(self).uid,
                self.details == old(self).details,
                self.stats.wf(),
                self.stats@ == old(self)@.stats.counted(Status::Processing, old(task)@),
                self.statuses == old(self).statuses,
                self.kinds.wf(),
                self.kinds@ == old(self).kinds@.insert(kind),
                self.canceled_by == old(self).canceled_by,
                self.oldest_enqueued_at == old(self).oldest_enqueued_at,
                self.earliest_enqueued_at == old(self).earliest_enqueued_at,
                self.started_at == old(self).started_at,
                self.finished_at == old(self).finished_at,
                forall|n: Seq<char>|
                    #[trigger] self.indexes@.contains(n) == (indexes_before.contains(n)
                        || exists|j: int| 0 <= j < i && (#[trigger] names[j])@ == n),
            decreases names.len() - i,
        {
            self.indexes.insert(names[i]);
            proof {
                assert forall|n: Seq<char>|
                    #[trigger] self.indexes@.contains(n) == (indexes_before.contains(n)
                        || exists|j: int| 0 <= j < i + 1 && (#[trigger] names[j])@ == n) by {
                    if n == names[i as int]@ {
                        assert(names[i as int]@ == n);
                    }
                    if exists|j: int| 0 <= j < i + 1 && (#[trigger] names[j])@ == n {
                        let j = choose|j: int| 0 <= j < i + 1 && (#[trigger] names[j])@ == n;
                        if j < i {
                            assert(names[j]@ == n);
                        }
                    }
                }
            }
            i += 1;
        }
        proof {
            assert forall|n: Seq<char>|
                #[trigger] self.indexes@.contains(n) == indexes_before.union(
                    old(task)@.kind.indexes(),
                ).contains(n) by {
                if old(task)@.kind.indexes().contains(n) {
                    let j = choose|j: int| 0 <= j < names.len() && (#[trigger] names[j])@ == n;
                    assert(names[j]@ == n);
                }
            }
            assert(self.indexes@ =~= indexes_before.union(old(task)@.kind.indexes()));
        }
        self.details.accumulate(&task.details);
        match task.canceled_by {
            Some(c) => {
                self.canceled_by.insert(&c);
            },
            None => {},
        }
        self.oldest_enqueued_at = Some(
            match self.oldest_enqueued_at {
                Some(at) => if at <= task.enqueued_at {
                    at
                } else {
                    task.enqueued_at
                },
                None => task.enqueued_at,
            },
        );
        self.earliest_enqueued_at = Some(
            match self.earliest_enqueued_at {
                Some(at) => if at >= task.enqueued_at {
                    at
                } else {
                    task.enqueued_at
                },
                None => task.enqueued_at,
            },
        );
    }

    /// Claims every task of the list, in order.
    pub fn processing(&mut self, tasks: &mut Vec<Task>)
        requires
            old(self).wf(),
        ensures
            final(self).wf(),
            final(self)@ == old(self)@.claimed_all(
                task_views(old(tasks)@),
                old(tasks).len() as int,
            ),
            final(tasks).len() == old(tasks).len(),
            forall|i: int|
                0 <= i < old(tasks).len() ==> (#[trigger] final(tasks)[i])@ == claimed_by(
                    old(tasks)[i]@,
                    old(self).uid,
                ),
    {
        let ghost views = task_views(old(tasks)@);
        let mut i: usize = 0;
        while i < tasks.len()
            invariant
                i <= tasks.len(),
                tasks.len() == old(tasks).len(),
                self.wf(),
                self.uid == old(self).uid,
                views == task_views(old(tasks)@),
                self@ == old(self)@.claimed_all(views, i as int),
                forall|j: int|
                    0 <= j < i ==> (#[trigger] tasks[j])@ == claimed_by(
                        old(tasks)[j]@,
                        old(self).uid,
                    ),
                forall|j: int| i <= j < tasks.len() ==> (#[trigger] tasks[j]) == old(tasks)[j],
            decreases tasks.len() - i,
        {
            assert(views[i as int] == old(tasks)[i as int]@);
            self.claim(&mut tasks[i]);
            i += 1;
        }
    }

    /// Closes the batch at `finished_at`.
    pub fn finished_at(&mut self, finished_at: i128)
        requires
            old(self).wf(),
        ensures
            final(self).wf(),
            final(self)@ == old(self)@.closed(finished_at),
    {
        self.details = BatchDetails::empty();
        self.stats = BatchStats::new();
        self.finished_at = Some(finished_at);
        self.statuses.clear();
    }

    /// Closes the batch now.
    pub fn finished(&mut self)
        requires
            old(self).wf(),
        ensures
            final(self).wf(),
            final(self).finished_at is Some,
            final(self)@ == old(self)@.closed(final(self).finished_at->0),
    {
        self.finished_at(now_nanos());
    }

    /// Records the outcome of one task: the task gets the batch's identifier and
    /// times, and the batch counts the task under its status.
    pub fn update(&mut self, task: &mut Task)
        requires
            old(self).wf(),
        ensures
            final(self).wf(),
            final(task)@ == stamped(old(task)@, old(self)@),
            final(self)@ == old(self)@.recorded(final(task)@),
    {
        task.batch_uid = Some(self.uid);
        task.started_at = Some(self.started_at);
        task.finished_at = self.finished_at;
        self.statuses.insert(&task.status);
        self.details.accumulate(&task.details);
        self.stats.count(task.status, task);
    }

    /// Records the outcome of every task of the list, in order.
    pub fn update_all(&mut self, tasks: &mut Vec<Task>)
        requires
            old(self).wf(),
        ensures
            final(self).wf(),
            final(tasks).len() == old(tasks).len(),
            forall|i: int|
                0 <= i < old(tasks).len() ==> (#[trigger] final(tasks)[i])@ == stamped(
                    old(tasks)[i]@,
                    old(self)@,
                ),
            final(self)@ == old(self)@.recorded_all(
                task_views(final(tasks)@),
                old(tasks).len() as int,
            ),
            final(self).uid == old(self).uid,
            final(self).started_at == old(self).started_at,
            final(self).finished_at == old(self).finished_at,
    {
        let mut i: usize = 0;
        while i < tasks.len()
            invariant
                i <= tasks.len(),
                tasks.len() == old(tasks).len(),
                self.wf(),
                self.uid == old(self).uid,
                self.started_at == old(self).started_at,
                self.finished_at == old(self).finished_at,
                forall|j: int|
                    0 <= j < i ==> (#[trigger] tasks[j])@ == stamped(old(tasks)[j]@, old(self)@),
                forall|j: int| i <= j < tasks.len() ==> (#[trigger] tasks[j]) == old(tasks)[j],
                self@ == old(self)@.recorded_all(task_views(tasks@), i as int),
            decreases tasks.len() - i,
        {
            let ghost before = task_views(tasks@);
            let ghost pb_before = self@;
            self.update(&mut tasks[i]);
            proof {
                let after = task_views(tasks@);
                assert(after[i as int] == tasks[i as int]@);
                assert forall|j: int| 0 <= j < i implies after[j] == before[j] by {}
                lemma_recorded_all_prefix(old(self)@, before, after, i as int);
            }
            i += 1;
        }
    }

    /// The record that is kept of the batch.
    pub fn to_batch(&self) -> (r: Batch)
        requires
            self.wf(),
        ensures
            r.wf(),
            r@ == self@.as_batch(),
    {
        Batch {
            uid: self.uid,
            progress: None,
            details: self.details,
            stats: self.stats.duplicate(),
            started_at: self.started_at,
            finished_at: self.finished_at,
        }
    }
}

} // verus!

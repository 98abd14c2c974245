//! The scheduler: the task queue and the batches on record, and the steps by which
//! the processor takes tasks from the one to the other.

use crate::autobatcher::{plan_next_batch, planned, BatchPlan};
use crate::batch_store::BatchStore;
use crate::batches::{
    claimed_by, lemma_claimed_all_prefix, opt_progress_view, stamped, task_views, Batch, BatchView,
    ProcessingBatch, ProcessingBatchView, Progress,
};
use crate::bitmap::{
    bitmap_equal, bitmap_insert, bitmap_is_empty, bitmap_new, bitmap_subtract, bitmap_to_vec,
    members,
};
use crate::consistency::{file_set, task_consistent};
use crate::queue::{
    all_legal, enqueued, keeps_history, legal_update, lemma_overwritten, overwritten, swaps_valid,
    uids_ascend, Query, TaskQueue,
};
use crate::tasks::{
    BatchId, Error, KindView, KindWithContent, Status, Task, TaskId, TaskView,
};
use roaring::RoaringBitmap;
use uuid::Uuid;
use vstd::prelude::*;

verus! {

/// The batch in progress, as readers see it.
pub struct ProcessingTasks {
    pub batch: Option<ProcessingBatch>,
    pub progress: Option<Progress>,
}

/// The batch that the batcher chose, opened and ready to claim its tasks.
pub struct NextBatch {
    pub batch: ProcessingBatch,
    /// The tasks to claim.
    pub tasks: RoaringBitmap,
    /// What the batch does, and the tasks to claim in the order of their enqueueing.
    pub plan: BatchPlan,
}

/// The scheduler.
pub struct IndexScheduler {
    pub queue: TaskQueue,
    pub batches: BatchStore,
}

/// The record of a task once it is marked as processing in the batch `batch`.
pub open spec fn processing_in(t: TaskView, batch: BatchId) -> TaskView {
    TaskView { status: Status::Processing, batch_uid: Some(batch), ..t }
}

/// The record of a task after a restart: a task that was processing waits again,
/// claimed by no batch; any other task is as it was.
pub open spec fn recovered(t: TaskView) -> TaskView {
    if t.status == Status::Processing {
        TaskView { status: Status::Enqueued, batch_uid: None, ..t }
    } else {
        t
    }
}

/// The records of tasks once the batch recorded their outcomes.
pub open spec fn stamped_views(tasks: Seq<Task>, batch: ProcessingBatchView) -> Seq<TaskView> {
    Seq::new(tasks.len(), |i: int| stamped(tasks[i]@, batch))
}

/// The update files that are no longer needed: those of the additions among the
/// tasks that have reached a terminal status.
pub open spec fn spent_update_files(done: Seq<TaskView>) -> Set<Uuid> {
    Set::new(
        |file: Uuid|
            exists|i: int|
                0 <= i < done.len() && (#[trigger] done[i]).status.is_terminal() && (
                done[i].kind matches KindView::DocumentAdditionOrUpdate { content_file, .. }
                    && content_file == file),
    )
}

/// The record of a task once the task `canceler` canceled it at the time `now`.
pub open spec fn canceled(t: TaskView, canceler: TaskId, now: i128) -> TaskView {
    TaskView {
        status: Status::Canceled,
        canceled_by: Some(canceler),
        finished_at: match t.finished_at {
            Some(at) => Some(at),
            None => Some(now),
        },
        ..t
    }
}

/// Whether a task is an enqueued cancellation that targets one of the tasks of a list.
pub open spec fn cancels(t: TaskView, targets: Seq<TaskId>) -> bool {
    &&& t.status == Status::Enqueued
    &&& t.kind matches KindView::TaskCancelation { tasks, .. }
    &&& exists|p: int| 0 <= p < targets.len() && tasks.contains(#[trigger] targets[p])
}

/// The tasks that a cancellation reaches: its targets that are on record and have
/// not reached a terminal status.
pub open spec fn reached(m: Map<TaskId, TaskView>, targets: Set<TaskId>) -> Set<TaskId> {
    Set::new(|uid: TaskId| targets.contains(uid) && m.contains_key(uid) && !m[uid].status.is_terminal())
}

/// The tasks that a deletion removes: its targets that are on record and have
/// reached a terminal status.
pub open spec fn removable(m: Map<TaskId, TaskView>, targets: Set<TaskId>) -> Set<TaskId> {
    Set::new(|uid: TaskId| targets.contains(uid) && m.contains_key(uid) && m[uid].status.is_terminal())
}

/// The queue after a cancellation: the tasks reached are canceled, the others are
/// as they were.
pub open spec fn after_cancelation(
    m: Map<TaskId, TaskView>,
    targets: Set<TaskId>,
    canceler: TaskId,
    now: i128,
) -> Map<TaskId, TaskView> {
    Map::new(
        |uid: TaskId| m.contains_key(uid),
        |uid: TaskId|
            if reached(m, targets).contains(uid) {
                canceled(m[uid], canceler, now)
            } else {
                m[uid]
            },
    )
}

/// The queue after a restart.
pub open spec fn after_recovery(m: Map<TaskId, TaskView>) -> Map<TaskId, TaskView> {
    Map::new(|uid: TaskId| m.contains_key(uid), |uid: TaskId| recovered(m[uid]))
}

/// After a restart no task is processing and none is claimed that was processing.
pub proof fn lemma_recovery_leaves_none_processing(m: Map<TaskId, TaskView>, uid: TaskId)
    requires
        m.contains_key(uid),
    ensures
        after_recovery(m).contains_key(uid),
        after_recovery(m)[uid].status != Status::Processing,
        m[uid].status == Status::Processing ==> after_recovery(m)[uid].status == Status::Enqueued
            && after_recovery(m)[uid].batch_uid is None,
        m[uid].status != Status::Processing ==> after_recovery(m)[uid] == m[uid],
        after_recovery(after_recovery(m)) == after_recovery(m),
{
    assert(after_recovery(after_recovery(m)) =~= after_recovery(m));
}

/// A cancellation never reaches a task that has reached a terminal status, and
/// never itself: a cancellation on record targets older tasks only.
pub proof fn lemma_cancelation_is_not_retroactive(
    m: Map<TaskId, TaskView>,
    targets: Set<TaskId>,
    canceler: TaskId,
    now: i128,
    uid: TaskId,
)
    requires
        m.contains_key(uid),
    ensures
        m[uid].status.is_terminal() ==> after_cancelation(m, targets, canceler, now)[uid] == m[uid],
        !targets.contains(uid) ==> after_cancelation(m, targets, canceler, now)[uid] == m[uid],
        targets.contains(uid) && !m[uid].status.is_terminal() ==> after_cancelation(
            m,
            targets,
            canceler,
            now,
        )[uid].status == Status::Canceled,
{
}

impl IndexScheduler {
    pub open spec fn wf(&self) -> bool {
        self.queue.wf() && self.batches.wf()
    }

    /// The enqueued tasks, in ascending order of identifier.
    pub open spec fn is_enqueued_list(&self, e: Seq<TaskView>) -> bool {
        &&& forall|i: int, j: int| 0 <= i < j < e.len() ==> (#[trigger] e[i]).uid < (#[trigger] e[j]).uid
        &&& forall|i: int|
            0 <= i < e.len() ==> self.queue.tasks().contains_key((#[trigger] e[i]).uid)
                && self.queue.tasks()[e[i].uid] == e[i] && e[i].status == Status::Enqueued
        &&& forall|uid: TaskId|
            self.queue.tasks().contains_key(uid) && self.queue.tasks()[uid].status
                == Status::Enqueued ==> exists|i: int| 0 <= i < e.len() && (#[trigger] e[i]).uid == uid
    }

    /// A scheduler with nothing on record.
    pub fn new() -> (r: Self)
        ensures
            r.wf(),
            r.queue.tasks() == Map::<TaskId, TaskView>::empty(),
            r.batches.batches() == Map::<BatchId, BatchView>::empty(),
    {
        IndexScheduler { queue: TaskQueue::new(), batches: BatchStore::new() }
    }

    /// Enqueues a task of the given kind at the time `now`; see [`TaskQueue::register`].
    pub fn register(&mut self, kind: KindWithContent, now: i128) -> (r: Result<Task, Error>)
        requires
            old(self).wf(),
        ensures
            final(self).wf(),
            final(self).batches == old(self).batches,
            keeps_history(old(self).queue.tasks(), final(self).queue.tasks()),
            r is Ok <==> old(self).queue.next_uid() <= u32::MAX && swaps_valid(kind@),
            match r {
                Ok(task) => task@ == enqueued(old(self).queue.next_uid() as u32, kind@, now)
                    && final(self).queue.tasks() == old(self).queue.tasks().insert(task.uid, task@),
                Err(e) => *final(self) == *old(self) && if old(self).queue.next_uid() > u32::MAX {
                    e == Error::TaskIdsExhausted
                } else {
                    e is SwapDuplicateIndexFound || e is SwapDuplicateIndexesFound
                },
            },
    {
        self.queue.register(kind, now)
    }

    /// Enqueues the cancellation of the tasks that meet a query; `original_filter`
    /// is the query as it was written. The cancellation targets the tasks that meet
    /// the query now.
    pub fn cancel_tasks(&mut self, query: &Query, original_filter: String, now: i128) -> (r:
        Result<Task, Error>)
        requires
            old(self).wf(),
        ensures
            final(self).wf(),
            final(self).batches == old(self).batches,
            keeps_history(old(self).queue.tasks(), final(self).queue.tasks()),
            r is Ok <==> old(self).queue.next_uid() <= u32::MAX,
            match r {
                Ok(task) => task.uid == old(self).queue.next_uid() && task.status
                    == Status::Enqueued && (task@.kind matches KindView::TaskCancelation {
                    query: filter,
                    tasks,
                } && filter == original_filter@ && forall|uid: TaskId|
                    #[trigger] tasks.contains(uid) <==> old(self).queue.tasks().contains_key(uid)
                        && query.matches(old(self).queue.tasks()[uid]))
                    && final(self).queue.tasks() == old(self).queue.tasks().insert(
                    task.uid,
                    task@,
                ),
                Err(e) => *final(self) == *old(self) && e == Error::TaskIdsExhausted,
            },
    {
        let tasks = self.queue.filter_tasks(query);
        let kind = KindWithContent::TaskCancelation { query: original_filter, tasks };
        proof {
            self.queue.lemma_next_uid();
            assert(crate::utils::swapped_names(kind@) =~= Seq::<Seq<char>>::empty());
            if self.queue.next_uid() <= u32::MAX {
                assert forall|uid: TaskId| members(tasks).contains(uid) implies uid
                    < self.queue.next_uid() as u32 by {
                    assert(self.queue.tasks().contains_key(uid));
                }
                assert(crate::bitmap::below(members(tasks), self.queue.next_uid() as u32)
                    =~= members(tasks));
            }
        }
        self.queue.register(kind, now)
    }

    /// Enqueues the deletion of the tasks that meet a query; `original_filter` is
    /// the query as it was written. The deletion targets the tasks that meet the
    /// query now; those that have not reached a terminal status by the time the
    /// deletion is carried out are left alone.
    pub fn delete_tasks(&mut self, query: &Query, original_filter: String, now: i128) -> (r:
        Result<Task, Error>)
        requires
            old(self).wf(),
        ensures
            final(self).wf(),
            final(self).batches == old(self).batches,
            keeps_history(old(self).queue.tasks(), final(self).queue.tasks()),
            r is Ok <==> old(self).queue.next_uid() <= u32::MAX,
            match r {
                Ok(task) => task.uid == old(self).queue.next_uid() && task.status
                    == Status::Enqueued && (task@.kind matches KindView::TaskDeletion {
                    query: filter,
                    tasks,
                } && filter == original_filter@ && forall|uid: TaskId|
                    #[trigger] tasks.contains(uid) <==> old(self).queue.tasks().contains_key(uid)
                        && query.matches(old(self).queue.tasks()[uid]))
                    && final(self).queue.tasks() == old(self).queue.tasks().insert(
                    task.uid,
                    task@,
                ),
                Err(e) => *final(self) == *old(self) && e == Error::TaskIdsExhausted,
            },
    {
        let tasks = self.queue.filter_tasks(query);
        let kind = KindWithContent::TaskDeletion { query: original_filter, tasks };
        proof {
            self.queue.lemma_next_uid();
            assert(crate::utils::swapped_names(kind@) =~= Seq::<Seq<char>>::empty());
            if self.queue.next_uid() <= u32::MAX {
                assert forall|uid: TaskId| members(tasks).contains(uid) implies uid
                    < self.queue.next_uid() as u32 by {
                    assert(self.queue.tasks().contains_key(uid));
                }
                assert(crate::bitmap::below(members(tasks), self.queue.next_uid() as u32)
                    =~= members(tasks));
            }
        }
        self.queue.register(kind, now)
    }

    /// Puts a finished batch on record.
    ///
    /// `tasks` must be the tasks that the batch claimed. Fails with
    /// `CorruptedTaskQueue`, and changes nothing, when the batch has no finish time,
    /// when its identifier is not the next one, or when `tasks` are not exactly the
    /// tasks on record as claimed by the batch.
    pub fn write_batch(&mut self, batch: ProcessingBatch, tasks: &RoaringBitmap) -> (r: Result<
        (),
        Error,
    >)
        requires
            old(self).wf(),
            batch.wf(),
        ensures
            final(self).wf(),
            final(self).queue == old(self).queue,
            r is Ok <==> batch.finished_at is Some && batch.uid == old(self).batches.next_uid()
                && members(*tasks) == old(self).queue.by_batch(batch.uid),
            match r {
                Ok(()) => final(self).batches.holds_after(&old(self).batches, batch@),
                Err(e) => *final(self) == *old(self) && e == Error::CorruptedTaskQueue,
            },
    {
        if batch.finished_at.is_none() {
            return Err(Error::CorruptedTaskQueue);
        }
        match self.batches.next_batch_id() {
            Ok(next) => {
                if next != batch.uid {
                    return Err(Error::CorruptedTaskQueue);
                }
            },
            Err(_) => {
                return Err(Error::CorruptedTaskQueue);
            },
        }
        let claimed = self.queue.tasks_in_batch(batch.uid);
        if !bitmap_equal(&claimed, tasks) {
            return Err(Error::CorruptedTaskQueue);
        }
        self.batches.put(&batch);
        Ok(())
    }

    /// The tasks with the given identifiers, each claimed by the batch.
    ///
    /// Fails with `CorruptedTaskQueue`, and leaves the batch as it is, when one of
    /// the tasks is not on record.
    pub fn get_existing_tasks_for_processing_batch(
        &self,
        processing_batch: &mut ProcessingBatch,
        tasks: &Vec<TaskId>,
    ) -> (r: Result<Vec<Task>, Error>)
        requires
            self.wf(),
            old(processing_batch).wf(),
        ensures
            final(processing_batch).wf(),
            r is Ok <==> forall|i: int|
                0 <= i < tasks.len() ==> self.queue.tasks().contains_key(#[trigger] tasks[i]),
            match r {
                Ok(found) => found.len() == tasks.len() && (forall|i: int|
                    0 <= i < tasks.len() ==> (#[trigger] found[i])@ == claimed_by(
                        self.queue.tasks()[tasks[i]],
                        old(processing_batch).uid,
                    )) && final(processing_batch)@ == old(processing_batch)@.claimed_all(
                    Seq::new(tasks.len() as nat, |i: int| self.queue.tasks()[tasks[i]]),
                    tasks.len() as int,
                ),
                Err(e) => e == Error::CorruptedTaskQueue && *final(processing_batch) == *old(
                    processing_batch,
                ),
            },
    {
        let mut found = match self.queue.get_existing_tasks(tasks) {
            Ok(found) => found,
            Err(e) => {
                return Err(e);
            },
        };
        let ghost loaded = task_views(found@);
        processing_batch.processing(&mut found);
        proof {
            let wanted = Seq::new(tasks.len() as nat, |i: int| self.queue.tasks()[tasks[i]]);
            assert forall|j: int| 0 <= j < tasks.len() implies loaded[j] == wanted[j] by {}
            lemma_claimed_all_prefix(old(processing_batch)@, loaded, wanted, tasks.len() as int);
        }
        Ok(found)
    }

    /// The batches with the given identifiers. The batch in progress is not on
    /// record yet: it is made up from what is known of it, with its progress.
    ///
    /// Fails with `CorruptedTaskQueue` when a batch is neither in progress nor on record.
    pub fn get_existing_batches(&self, processing: &ProcessingTasks, tasks: &Vec<BatchId>) -> (r:
        Result<Vec<Batch>, Error>)
        requires
            self.wf(),
            processing.batch matches Some(b) ==> b.wf(),
        ensures
            r is Ok <==> forall|i: int|
                0 <= i < tasks.len() ==> (processing.batch matches Some(b) && b.uid
                    == #[trigger] tasks[i]) || self.batches.batches().contains_key(tasks[i]),
            match r {
                Ok(found) => found.len() == tasks.len() && forall|i: int|
                    0 <= i < tasks.len() ==> (#[trigger] found[i])@ == (if processing.batch matches Some(
                        b,
                    ) && b.uid == tasks[i] {
                        BatchView {
                            progress: opt_progress_view(processing.progress),
                            ..processing.batch->0@.as_batch()
                        }
                    } else {
                        self.batches.batches()[tasks[i]]
                    }),
                Err(e) => e == Error::CorruptedTaskQueue,
            },
    {
        let mut found: Vec<Batch> = Vec::new();
        let mut i: usize = 0;
        while i < tasks.len()
            invariant
                i <= tasks.len(),
                self.wf(),
                processing.batch matches Some(b) ==> b.wf(),
                found.len() == i,
                forall|j: int|
                    0 <= j < i ==> (processing.batch matches Some(b) && b.uid
                        == #[trigger] tasks[j]) || self.batches.batches().contains_key(tasks[j]),
                forall|j: int|
                    0 <= j < i ==> (#[trigger] found[j])@ == (if processing.batch matches Some(b)
                        && b.uid == tasks[j] {
                        BatchView {
                            progress: opt_progress_view(processing.progress),
                            ..processing.batch->0@.as_batch()
                        }
                    } else {
                        self.batches.batches()[tasks[j]]
                    }),
            decreases tasks.len() - i,
        {
            let in_progress = match &processing.batch {
                Some(batch) => batch.uid == tasks[i],
                None => false,
            };
            if in_progress {
                let mut batch = match &processing.batch {
                    Some(batch) => batch.to_batch(),
                    None => {
                        return Err(Error::CorruptedTaskQueue);
                    },
                };
                batch.progress = match &processing.progress {
                    Some(p) => Some(
                        Progress {
                            step: p.step.clone(),
                            finished_tasks: p.finished_tasks,
                            total_tasks: p.total_tasks,
                        },
                    ),
                    None => None,
                };
                found.push(batch);
            } else {
                match self.batches.get_batch(tasks[i]) {
                    Some(batch) => {
                        found.push(batch.duplicate());
                    },
                    None => {
                        return Err(Error::CorruptedTaskQueue);
                    },
                }
            }
            i += 1;
        }
        Ok(found)
    }

    /// The enqueued tasks, in ascending order of identifier.
    pub fn enqueued_tasks(&self) -> (r: Vec<Task>)
        requires
            self.wf(),
        ensures
            self.is_enqueued_list(task_views(r@)),
    {
        let waiting = self.queue.get_status(Status::Enqueued);
        let ids = bitmap_to_vec(&waiting);
        proof {
            assert forall|i: int| 0 <= i < ids.len() implies self.queue.tasks().contains_key(
                #[trigger] ids[i],
            ) && self.queue.tasks()[ids[i]].status == Status::Enqueued by {
                assert(ids@.contains(ids[i]));
                self.queue.lemma_by_status(Status::Enqueued, ids[i]);
            }
        }
        let found = match self.queue.get_existing_tasks(&ids) {
            Ok(found) => found,
            Err(_) => {
                assert(false);
                Vec::new()
            },
        };
        proof {
            let e = task_views(found@);
            self.queue.lemma_nth();
            assert forall|i: int| 0 <= i < e.len() implies (#[trigger] e[i]).uid == ids[i] by {
                let uid = ids[i];
                let j = choose|j: int|
                    0 <= j < self.queue.spec_len() && (#[trigger] self.queue.spec_nth(j)).uid == uid;
                assert(self.queue.tasks()[uid] == self.queue.spec_nth(j)@);
            }
            assert forall|uid: TaskId|
                self.queue.tasks().contains_key(uid) && self.queue.tasks()[uid].status
                    == Status::Enqueued implies exists|i: int|
                0 <= i < e.len() && (#[trigger] e[i]).uid == uid by {
                self.queue.lemma_by_status(Status::Enqueued, uid);
                assert(ids@.contains(uid));
                let i = choose|i: int| 0 <= i < ids.len() && ids[i] == uid;
                assert(e[i].uid == uid);
            }
        }
        found
    }

    /// Asks the batcher for the next batch and opens it at the time `now`.
    ///
    /// There is no batch exactly when no task is enqueued. Fails with
    /// `TaskIdsExhausted` when there are tasks to process and no batch identifier is left.
    pub fn create_next_batch(&self, now: i128) -> (r: Result<Option<NextBatch>, Error>)
        requires
            self.wf(),
        ensures
            match r {
                Ok(None) => self.is_enqueued_list(Seq::empty()),
                Ok(Some(next)) => next.batch.wf() && next.batch@ == ProcessingBatchView::opened(
                    self.batches.next_uid() as u32,
                    now,
                ) && self.batches.next_uid() <= u32::MAX && (exists|e: Seq<TaskView>|
                    #[trigger] self.is_enqueued_list(e) && planned(e) == Some(next.plan@))
                    && forall|uid: TaskId|
                    #[trigger] members(next.tasks).contains(uid) <==> next.plan.tasks@.contains(uid),
                Err(e) => e == Error::TaskIdsExhausted && self.batches.next_uid() > u32::MAX
                    && !self.is_enqueued_list(Seq::empty()),
            },
    {
        let waiting = self.enqueued_tasks();
        let ghost e = task_views(waiting@);
        let plan = match plan_next_batch(&waiting) {
            Some(plan) => plan,
            None => {
                assert(e =~= Seq::<TaskView>::empty());
                return Ok(None);
            },
        };
        proof {
            assert(e.len() > 0);
            assert(self.queue.tasks().contains_key(e[0].uid));
        }
        let uid = match self.batches.next_batch_id() {
            Ok(uid) => uid,
            Err(err) => {
                return Err(err);
            },
        };
        let mut tasks = bitmap_new();
        let mut i: usize = 0;
        while i < plan.tasks.len()
            invariant
                i <= plan.tasks.len(),
                forall|uid: TaskId|
                    #[trigger] members(tasks).contains(uid) <==> exists|j: int|
                        0 <= j < i && #[trigger] plan.tasks[j] == uid,
            decreases plan.tasks.len() - i,
        {
            let ghost prev = members(tasks);
            bitmap_insert(&mut tasks, plan.tasks[i]);
            proof {
                assert forall|uid: TaskId|
                    #[trigger] members(tasks).contains(uid) <==> exists|j: int|
                        0 <= j < i + 1 && #[trigger] plan.tasks[j] == uid by {
                    if prev.contains(uid) {
                        let j = choose|j: int| 0 <= j < i && #[trigger] plan.tasks[j] == uid;
                        assert(plan.tasks[j] == uid);
                    }
                    if uid == plan.tasks[i as int] {
                        assert(plan.tasks[i as int] == uid);
                    }
                    if exists|j: int| 0 <= j < i + 1 && #[trigger] plan.tasks[j] == uid {
                        let j = choose|j: int| 0 <= j < i + 1 && #[trigger] plan.tasks[j] == uid;
                        if j < i {
                            assert(plan.tasks[j] == uid);
                        }
                    }
                }
            }
            i += 1;
        }
        let batch = ProcessingBatch::new_at(uid, now);
        proof {
            assert(self.is_enqueued_list(e));
        }
        Ok(Some(NextBatch { batch, tasks, plan }))
    }

    /// Claims tasks for a batch and marks them as processing, all of them or none.
    ///
    /// The tasks must come in ascending order of identifier. Fails with
    /// `CorruptedTaskQueue` when they do not or when one of them is not on record,
    /// and else with `IllegalTaskUpdate` when one of them has reached a terminal
    /// status. On failure nothing changes, the batch included.
    pub fn start_batch(&mut self, processing_batch: &mut ProcessingBatch, tasks: &Vec<TaskId>) -> (r:
        Result<Vec<Task>, Error>)
        requires
            old(self).wf(),
            old(processing_batch).wf(),
        ensures
            final(self).wf(),
            final(processing_batch).wf(),
            final(self).batches == old(self).batches,
            keeps_history(old(self).queue.tasks(), final(self).queue.tasks()),
            r is Ok <==> (forall|i: int, j: int|
                0 <= i < j < tasks.len() ==> #[trigger] tasks[i] < #[trigger] tasks[j]) && (forall|
                i: int,
            |
                0 <= i < tasks.len() ==> old(self).queue.tasks().contains_key(#[trigger] tasks[i])
                    && !old(self).queue.tasks()[tasks[i]].status.is_terminal()),
            match r {
                Ok(marked) => marked.len() == tasks.len() && (forall|i: int|
                    0 <= i < tasks.len() ==> (#[trigger] marked[i])@ == processing_in(
                        old(self).queue.tasks()[tasks[i]],
                        old(processing_batch).uid,
                    )) && final(self).queue.tasks() == overwritten(
                    old(self).queue.tasks(),
                    task_views(marked@),
                    marked.len() as int,
                ) && final(processing_batch)@ == old(processing_batch)@.claimed_all(
                    Seq::new(tasks.len() as nat, |i: int| old(self).queue.tasks()[tasks[i]]),
                    tasks.len() as int,
                ),
                Err(e) => *final(self) == *old(self) && *final(processing_batch) == *old(
                    processing_batch,
                ) && (e == Error::CorruptedTaskQueue || e == Error::IllegalTaskUpdate),
            },
    {
        let mut marked = match self.queue.get_existing_tasks(tasks) {
            Ok(found) => found,
            Err(e) => {
                return Err(e);
            },
        };
        let mut found = match self.queue.get_existing_tasks(tasks) {
            Ok(found) => found,
            Err(e) => {
                return Err(e);
            },
        };
        let uid = processing_batch.uid;
        let ghost m = self.queue.tasks();
        proof {
            self.queue.lemma_nth();
            assert forall|i: int| 0 <= i < tasks.len() implies m[tasks[i]].uid
                == #[trigger] tasks[i] by {
                let j = choose|j: int|
                    0 <= j < self.queue.spec_len() && (#[trigger] self.queue.spec_nth(j)).uid
                        == tasks[i];
                assert(m[tasks[i]] == self.queue.spec_nth(j)@);
            }
        }
        let mut i: usize = 0;
        while i < marked.len()
            invariant
                i <= marked.len(),
                marked.len() == tasks.len(),
                forall|j: int| 0 <= j < tasks.len() ==> m.contains_key(#[trigger] tasks[j]),
                forall|j: int| 0 <= j < tasks.len() ==> m[tasks[j]].uid == #[trigger] tasks[j],
                forall|j: int| 0 <= j < i ==> (#[trigger] marked[j])@ == processing_in(m[tasks[j]], uid),
                forall|j: int| i <= j < marked.len() ==> (#[trigger] marked[j])@ == m[tasks[j]],
            decreases marked.len() - i,
        {
            marked[i].status = Status::Processing;
            marked[i].batch_uid = Some(uid);
            i += 1;
        }
        proof {
            assert forall|j: int| 0 <= j < marked.len() implies (#[trigger] marked[j]).uid
                == tasks[j] by {
                assert(marked[j]@ == processing_in(m[tasks[j]], uid));
            }
            let mv = task_views(marked@);
            assert forall|j: int| 0 <= j < mv.len() implies (#[trigger] mv[j]) == marked[j]@ by {}
            if uids_ascend(mv) {
                assert forall|a: int, b: int| 0 <= a < b < tasks.len() implies #[trigger] tasks[a]
                    < #[trigger] tasks[b] by {
                    assert(mv[a].uid < mv[b].uid);
                }
            }
            if forall|a: int, b: int|
                0 <= a < b < tasks.len() ==> #[trigger] tasks[a] < #[trigger] tasks[b] {
                assert forall|a: int, b: int| 0 <= a < b < mv.len() implies (#[trigger] mv[a]).uid
                    < (#[trigger] mv[b]).uid by {
                    assert(tasks[a] < tasks[b]);
                }
            }
        }
        match self.queue.commit_tasks(&marked) {
            Ok(()) => {},
            Err(e) => {
                proof {
                    if forall|a: int, b: int|
                        0 <= a < b < tasks.len() ==> #[trigger] tasks[a] < #[trigger] tasks[b] {
                        let mv = task_views(marked@);
                        let j = choose|j: int|
                            0 <= j < mv.len() && !(m.contains_key((#[trigger] mv[j]).uid)
                                && crate::queue::legal_update(m[mv[j].uid], mv[j]));
                        assert(mv[j] == marked[j]@);
                        assert(m.contains_key(tasks[j]));
                        assert(m[tasks[j]].status.is_terminal());
                    }
                }
                return Err(e);
            },
        }
        proof {
            assert forall|j: int| 0 <= j < tasks.len() implies !m[#[trigger] tasks[j]].status.is_terminal() by {
                let mv = task_views(marked@);
                assert(mv[j] == marked[j]@);
                assert(crate::queue::legal_update(m[mv[j].uid], mv[j]));
            }
        }
        let ghost loaded = task_views(found@);
        processing_batch.processing(&mut found);
        proof {
            let wanted = Seq::new(tasks.len() as nat, |i: int| m[tasks[i]]);
            assert forall|j: int| 0 <= j < tasks.len() implies loaded[j] == wanted[j] by {}
            lemma_claimed_all_prefix(old(processing_batch)@, loaded, wanted, tasks.len() as int);
        }
        Ok(marked)
    }

    /// Records the outcome of a batch at the time `now`: the tasks get the
    /// identifier and the times of the batch and are written back, and the batch is
    /// put on record; all of it or nothing.
    ///
    /// The tasks come as the processing left them, in ascending order of
    /// identifier. The result holds them as they were written, with the update
    /// files that are no longer needed. Fails with `CorruptedTaskQueue` when the
    /// identifier of the batch is not the next one, when the tasks are not in order
    /// or not on record, or when a task on record as claimed by the batch is not
    /// among them; and else with `IllegalTaskUpdate` when a change is no legal update.
    pub fn finish_batch(&mut self, batch: ProcessingBatch, tasks: Vec<Task>, now: i128) -> (r:
        Result<(Vec<Task>, Vec<Uuid>), Error>)
        requires
            old(self).wf(),
            batch.wf(),
        ensures
            final(self).wf(),
            keeps_history(old(self).queue.tasks(), final(self).queue.tasks()),
            r is Ok <==> batch.uid == old(self).batches.next_uid() && all_legal(
                old(self).queue.tasks(),
                stamped_views(tasks@, batch@.closed(now)),
            ) && (forall|uid: TaskId|
                old(self).queue.by_batch(batch.uid).contains(uid) ==> exists|i: int|
                    0 <= i < tasks.len() && (#[trigger] tasks[i]).uid == uid),
            match r {
                Ok((done, files)) => task_views(done@) == stamped_views(
                    tasks@,
                    batch@.closed(now),
                ) && final(self).queue.tasks() == overwritten(
                    old(self).queue.tasks(),
                    task_views(done@),
                    done.len() as int,
                ) && final(self).batches.holds_after(
                    &old(self).batches,
                    batch@.closed(now).recorded_all(task_views(done@), done.len() as int),
                ) && file_set(files@) == spent_update_files(task_views(done@)),
                Err(e) => *final(self) == *old(self) && (e == Error::CorruptedTaskQueue || e
                    == Error::IllegalTaskUpdate),
            },
    {
        let ghost closed = batch@.closed(now);
        let ghost given = tasks@;
        let ghost sv = stamped_views(given, closed);
        let mut pb = batch;
        let mut done = tasks;
        pb.finished_at(now);
        pb.update_all(&mut done);
        proof {
            assert(task_views(done@) =~= sv);
            assert forall|i: int| 0 <= i < done.len() implies (#[trigger] done[i]).uid
                == given[i].uid by {
                assert(done[i]@ == stamped(given[i]@, closed));
            }
        }
        match self.batches.next_batch_id() {
            Ok(next) => {
                if next != pb.uid {
                    return Err(Error::CorruptedTaskQueue);
                }
            },
            Err(_) => {
                return Err(Error::CorruptedTaskQueue);
            },
        }
        let mut claimed = bitmap_new();
        let mut i: usize = 0;
        while i < done.len()
            invariant
                i <= done.len(),
                forall|uid: TaskId|
                    #[trigger] members(claimed).contains(uid) <==> exists|j: int|
                        0 <= j < i && (#[trigger] done[j]).uid == uid,
            decreases done.len() - i,
        {
            let ghost prev = members(claimed);
            bitmap_insert(&mut claimed, done[i].uid);
            proof {
                assert forall|uid: TaskId|
                    #[trigger] members(claimed).contains(uid) <==> exists|j: int|
                        0 <= j < i + 1 && (#[trigger] done[j]).uid == uid by {
                    if prev.contains(uid) {
                        let j = choose|j: int| 0 <= j < i && (#[trigger] done[j]).uid == uid;
                        assert(done[j].uid == uid);
                    }
                    if uid == done[i as int].uid {
                        assert(done[i as int].uid == uid);
                    }
                    if exists|j: int| 0 <= j < i + 1 && (#[trigger] done[j]).uid == uid {
                        let j = choose|j: int| 0 <= j < i + 1 && (#[trigger] done[j]).uid == uid;
                        if j < i {
                            assert(done[j].uid == uid);
                        }
                    }
                }
            }
            i += 1;
        }
        let mut others = self.queue.tasks_in_batch(pb.uid);
        bitmap_subtract(&mut others, &claimed);
        if !bitmap_is_empty(&others) {
            proof {
                if forall|v: TaskId| !members(others).contains(v) {
                    assert(members(others) =~= Set::<TaskId>::empty());
                }
                let v = choose|v: TaskId| members(others).contains(v);
                assert(old(self).queue.by_batch(batch.uid).contains(v));
                assert(!members(claimed).contains(v));
                if exists|k: int| 0 <= k < given.len() && (#[trigger] given[k]).uid == v {
                    let k = choose|k: int| 0 <= k < given.len() && (#[trigger] given[k]).uid == v;
                    assert(done[k].uid == v);
                }
            }
            return Err(Error::CorruptedTaskQueue);
        }
        proof {
            assert forall|uid: TaskId|
                old(self).queue.by_batch(batch.uid).contains(uid) implies exists|k: int|
                0 <= k < given.len() && (#[trigger] given[k]).uid == uid by {
                if !members(claimed).contains(uid) {
                    assert(members(others).contains(uid));
                }
                let j = choose|j: int| 0 <= j < done.len() && (#[trigger] done[j]).uid == uid;
                assert(given[j].uid == uid);
            }
        }
        match self.queue.commit_tasks(&done) {
            Ok(()) => {},
            Err(e) => {
                return Err(e);
            },
        }
        self.batches.put(&pb);
        let mut files: Vec<Uuid> = Vec::new();
        let mut k: usize = 0;
        while k < done.len()
            invariant
                k <= done.len(),
                forall|file: Uuid|
                    #[trigger] file_set(files@).contains(file) <==> exists|j: int|
                        0 <= j < k && (#[trigger] done[j])@.status.is_terminal() && (
                        done[j]@.kind matches KindView::DocumentAdditionOrUpdate {
                            content_file,
                            ..
                        } && content_file == file),
            decreases done.len() - k,
        {
            let ghost before = files@;
            let mut pushed = false;
            match &done[k].kind {
                KindWithContent::DocumentAdditionOrUpdate { content_file, .. } => {
                    if done[k].status.terminal() {
                        files.push(*content_file);
                        pushed = true;
                    }
                },
                _ => {},
            }
            proof {
                assert forall|file: Uuid|
                    #[trigger] file_set(files@).contains(file) <==> exists|j: int|
                        0 <= j < k + 1 && (#[trigger] done[j])@.status.is_terminal() && (
                        done[j]@.kind matches KindView::DocumentAdditionOrUpdate {
                            content_file,
                            ..
                        } && content_file == file) by {
                    if file_set(before).contains(file) {
                        let p = choose|p: int| 0 <= p < before.len() && #[trigger] before[p] == file;
                        assert(files@[p] == file);
                        let j = choose|j: int|
                            0 <= j < k && (#[trigger] done[j])@.status.is_terminal() && (
                            done[j]@.kind matches KindView::DocumentAdditionOrUpdate {
                                content_file,
                                ..
                            } && content_file == file);
                        assert(done[j]@.status.is_terminal());
                    }
                    if pushed {
                        assert(files@[before.len() as int] == files@.last());
                    }
                    if file_set(files@).contains(file) {
                        let p = choose|p: int| 0 <= p < files.len() && #[trigger] files[p] == file;
                        if p < before.len() {
                            assert(before[p] == file);
                        } else {
                            assert(done[k as int]@.status.is_terminal());
                        }
                    }
                    if exists|j: int|
                        0 <= j < k + 1 && (#[trigger] done[j])@.status.is_terminal() && (
                        done[j]@.kind matches KindView::DocumentAdditionOrUpdate {
                            content_file,
                            ..
                        } && content_file == file) {
                        let j = choose|j: int|
                            0 <= j < k + 1 && (#[trigger] done[j])@.status.is_terminal() && (
                            done[j]@.kind matches KindView::DocumentAdditionOrUpdate {
                                content_file,
                                ..
                            } && content_file == file);
                        if j < k {
                            assert(file_set(before).contains(file));
                            let p = choose|p: int|
                                0 <= p < before.len() && #[trigger] before[p] == file;
                            assert(files@[p] == file);
                        } else {
                            assert(files@[before.len() as int] == file);
                        }
                    }
                }
            }
            k += 1;
        }
        proof {
            let dv = task_views(done@);
            assert forall|file: Uuid|
                file_set(files@).contains(file) <==> spent_update_files(dv).contains(file) by {
                if file_set(files@).contains(file) {
                    let j = choose|j: int|
                        0 <= j < done.len() && (#[trigger] done[j])@.status.is_terminal() && (
                        done[j]@.kind matches KindView::DocumentAdditionOrUpdate {
                            content_file,
                            ..
                        } && content_file == file);
                    assert(dv[j] == done[j]@);
                    assert(dv[j].status.is_terminal());
                }
                if spent_update_files(dv).contains(file) {
                    let j = choose|j: int|
                        0 <= j < dv.len() && (#[trigger] dv[j]).status.is_terminal() && (
                        dv[j].kind matches KindView::DocumentAdditionOrUpdate { content_file, .. }
                            && content_file == file);
                    assert(dv[j] == done[j]@);
                    assert(done[j]@.status.is_terminal());
                }
            }
            assert(file_set(files@) =~= spent_update_files(dv));
        }
        Ok((done, files))
    }

    /// Puts back in the queue what a crash left in progress: every task that was
    /// processing waits again, claimed by no batch. The result counts them.
    pub fn recover(&mut self) -> (r: u64)
        requires
            old(self).wf(),
        ensures
            final(self).wf(),
            final(self).batches == old(self).batches,
            keeps_history(old(self).queue.tasks(), final(self).queue.tasks()),
            final(self).queue.tasks() == after_recovery(old(self).queue.tasks()),
            r == old(self).queue.by_status(Status::Processing).len(),
    {
        let ghost m = self.queue.tasks();
        let processing = self.queue.get_status(Status::Processing);
        let count = crate::bitmap::bitmap_len(&processing);
        let ids = bitmap_to_vec(&processing);
        proof {
            self.queue.lemma_nth();
            assert forall|i: int| 0 <= i < ids.len() implies m.contains_key(#[trigger] ids[i])
                && m[ids[i]].status == Status::Processing && m[ids[i]].uid == ids[i] by {
                assert(ids@.contains(ids[i]));
                self.queue.lemma_by_status(Status::Processing, ids[i]);
                let j = choose|j: int|
                    0 <= j < self.queue.spec_len() && (#[trigger] self.queue.spec_nth(j)).uid
                        == ids[i];
                assert(m[ids[i]] == self.queue.spec_nth(j)@);
            }
        }
        let mut found = match self.queue.get_existing_tasks(&ids) {
            Ok(found) => found,
            Err(_) => {
                assert(false);
                Vec::new()
            },
        };
        let mut i: usize = 0;
        while i < found.len()
            invariant
                i <= found.len(),
                found.len() == ids.len(),
                forall|j: int| 0 <= j < i ==> (#[trigger] found[j])@ == recovered(m[ids[j]]),
                forall|j: int| i <= j < found.len() ==> (#[trigger] found[j])@ == m[ids[j]],
                forall|j: int|
                    0 <= j < ids.len() ==> m.contains_key(#[trigger] ids[j]) && m[ids[j]].status
                        == Status::Processing && m[ids[j]].uid == ids[j],
            decreases found.len() - i,
        {
            found[i].status = Status::Enqueued;
            found[i].batch_uid = None;
            i += 1;
        }
        let ghost fv = task_views(found@);
        proof {
            assert forall|j: int| 0 <= j < fv.len() implies (#[trigger] fv[j]) == recovered(
                m[ids[j]],
            ) by {
                assert(fv[j] == found[j]@);
            }
            assert forall|a: int, b: int| 0 <= a < b < fv.len() implies (#[trigger] fv[a]).uid < (
            #[trigger] fv[b]).uid by {
                assert(ids[a] < ids[b]);
            }
            assert forall|j: int| 0 <= j < fv.len() implies m.contains_key((#[trigger] fv[j]).uid)
                && legal_update(m[fv[j].uid], fv[j]) by {
                assert(fv[j] == recovered(m[ids[j]]));
            }
        }
        match self.queue.commit_tasks(&found) {
            Ok(()) => {},
            Err(_) => {
                assert(false);
            },
        }
        proof {
            let goal = after_recovery(m);
            assert forall|uid: TaskId| #[trigger]
                self.queue.tasks().contains_key(uid) == goal.contains_key(uid) by {
                lemma_overwritten(m, fv, fv.len() as int, uid);
                if exists|j: int| 0 <= j < fv.len() && (#[trigger] fv[j]).uid == uid {
                    let j = choose|j: int| 0 <= j < fv.len() && (#[trigger] fv[j]).uid == uid;
                    assert(m.contains_key(ids[j]));
                }
            }
            assert forall|uid: TaskId| self.queue.tasks().contains_key(uid) implies #[trigger]
                self.queue.tasks()[uid] == goal[uid] by {
                lemma_overwritten(m, fv, fv.len() as int, uid);
                if exists|j: int| 0 <= j < fv.len() && (#[trigger] fv[j]).uid == uid {
                    let j = choose|j: int| 0 <= j < fv.len() && (#[trigger] fv[j]).uid == uid;
                    assert(fv[j] == recovered(m[ids[j]]));
                    assert(ids[j] == uid);
                } else {
                    if m[uid].status == Status::Processing {
                        old(self).queue.lemma_by_status(Status::Processing, uid);
                        assert(ids@.contains(uid));
                        let j = choose|j: int| 0 <= j < ids.len() && ids[j] == uid;
                        assert(fv[j].uid == uid);
                    }
                }
            }
            assert(self.queue.tasks() =~= goal);
        }
        count
    }

    /// The records, canceled, of the tasks that a cancellation reaches, in ascending
    /// order of identifier, and how many they are.
    fn canceled_records(&self, targets: &RoaringBitmap, canceler: TaskId, now: i128) -> (r: (
        Vec<Task>,
        u64,
    ))
        requires
            self.wf(),
        ensures
            uids_ascend(task_views(r.0@)),
            forall|j: int|
                0 <= j < r.0.len() ==> reached(self.queue.tasks(), members(*targets)).contains(
                    (#[trigger] r.0[j]).uid,
                ) && r.0[j]@ == canceled(self.queue.tasks()[r.0[j].uid], canceler, now),
            forall|uid: TaskId|
                reached(self.queue.tasks(), members(*targets)).contains(uid) ==> exists|j: int|
                    0 <= j < r.0.len() && (#[trigger] r.0[j]).uid == uid,
            r.1 == reached(self.queue.tasks(), members(*targets)).len(),
    {
        let ghost m = self.queue.tasks();
        let ghost wanted = members(*targets);
        let ids = bitmap_to_vec(targets);
        let mut changed: Vec<Task> = Vec::new();
        let mut hit = bitmap_new();
        let mut i: usize = 0;
        while i < ids.len()
            invariant
                i <= ids.len(),
                self.wf(),
                m == self.queue.tasks(),
                forall|a: int, b: int| 0 <= a < b < ids.len() ==> ids[a] < ids[b],
                forall|v: u32| wanted.contains(v) <==> ids@.contains(v),
                forall|j: int|
                    0 <= j < changed.len() ==> reached(m, wanted).contains((#[trigger] changed[j]).uid)
                        && changed[j]@ == canceled(m[changed[j].uid], canceler, now),
                forall|j: int|
                    0 <= j < changed.len() ==> exists|k: int|
                        0 <= k < i && ids[k] == (#[trigger] changed[j]).uid,
                forall|a: int, b: int|
                    0 <= a < b < changed.len() ==> (#[trigger] changed[a]).uid < (
                    #[trigger] changed[b]).uid,
                forall|uid: TaskId|
                    #[trigger] members(hit).contains(uid) <==> exists|j: int|
                        0 <= j < changed.len() && (#[trigger] changed[j]).uid == uid,
                forall|uid: TaskId|
                    #[trigger] members(hit).contains(uid) <==> reached(m, wanted).contains(uid)
                        && exists|k: int| 0 <= k < i && ids[k] == uid,
            decreases ids.len() - i,
        {
            let uid = ids[i];
            let ghost before = changed@;
            let ghost hit_before = members(hit);
            proof {
                assert forall|k: int| 0 <= k < i implies ids[k] != uid by {
                    assert(ids[k] < ids[i as int]);
                }
                assert(ids@.contains(uid));
            }
            let mut pushed = false;
            match self.queue.get_task(uid) {
                Some(task) => {
                    if !task.status.terminal() {
                        let mut record = task.clone();
                        record.status = Status::Canceled;
                        record.canceled_by = Some(canceler);
                        if record.finished_at.is_none() {
                            record.finished_at = Some(now);
                        }
                        proof {
                            assert forall|a: int| 0 <= a < before.len() implies (
                            #[trigger] before[a]).uid < record.uid by {
                                let k = choose|k: int| 0 <= k < i && ids[k] == before[a].uid;
                                assert(ids[k] < ids[i as int]);
                            }
                        }
                        bitmap_insert(&mut hit, uid);
                        changed.push(record);
                        pushed = true;
                    }
                },
                None => {},
            }
            proof {
                assert forall|j: int| 0 <= j < changed.len() implies exists|k: int|
                    0 <= k < i + 1 && ids[k] == (#[trigger] changed[j]).uid by {
                    if j < before.len() {
                        let k = choose|k: int| 0 <= k < i && ids[k] == before[j].uid;
                        assert(ids[k] == changed[j].uid);
                    } else {
                        assert(ids[i as int] == changed[j].uid);
                    }
                }
                assert forall|v: TaskId|
                    #[trigger] members(hit).contains(v) <==> exists|j: int|
                        0 <= j < changed.len() && (#[trigger] changed[j]).uid == v by {
                    if hit_before.contains(v) {
                        let j = choose|j: int|
                            0 <= j < before.len() && (#[trigger] before[j]).uid == v;
                        assert(changed[j].uid == v);
                    }
                    if pushed && v == uid {
                        assert(changed[before.len() as int].uid == v);
                    }
                    if exists|j: int| 0 <= j < changed.len() && (#[trigger] changed[j]).uid == v {
                        let j = choose|j: int|
                            0 <= j < changed.len() && (#[trigger] changed[j]).uid == v;
                        if j < before.len() {
                            assert(before[j].uid == v);
                        }
                    }
                }
                assert forall|v: TaskId|
                    #[trigger] members(hit).contains(v) <==> reached(m, wanted).contains(v)
                        && exists|k: int| 0 <= k < i + 1 && ids[k] == v by {
                    if hit_before.contains(v) {
                        let k = choose|k: int| 0 <= k < i && ids[k] == v;
                        assert(ids[k] == v);
                    }
                    if pushed && v == uid {
                        assert(ids[i as int] == v);
                    }
                    if reached(m, wanted).contains(v) && exists|k: int|
                        0 <= k < i + 1 && ids[k] == v {
                        let k = choose|k: int| 0 <= k < i + 1 && ids[k] == v;
                        if k < i {
                            assert(ids[k] == v);
                        }
                    }
                }
            }
            i += 1;
        }
        proof {
            let cv = task_views(changed@);
            assert forall|a: int, b: int| 0 <= a < b < cv.len() implies (#[trigger] cv[a]).uid < (
            #[trigger] cv[b]).uid by {
                assert(changed[a].uid < changed[b].uid);
            }
            assert(members(hit) =~= reached(m, wanted)) by {
                assert forall|v: TaskId|
                    members(hit).contains(v) <==> reached(m, wanted).contains(v) by {
                    if reached(m, wanted).contains(v) {
                        assert(ids@.contains(v));
                        let k = choose|k: int| 0 <= k < ids.len() && ids[k] == v;
                        assert(ids[k] == v);
                    }
                }
            }
            assert forall|v: TaskId| reached(m, wanted).contains(v) implies exists|j: int|
                0 <= j < changed.len() && (#[trigger] changed[j]).uid == v by {
                assert(members(hit).contains(v));
            }
        }
        let count = crate::bitmap::bitmap_len(&hit);
        (changed, count)
    }

    /// Carries out a cancellation that is on record, at the time `now`: every
    /// target that is on record and has not reached a terminal status is canceled.
    /// The result counts the tasks canceled.
    ///
    /// Fails with `CorruptedTaskQueue`, and changes nothing, when `canceler` is not
    /// on record as a cancellation.
    pub fn process_task_cancelation(&mut self, canceler: TaskId, now: i128) -> (r: Result<u64, Error>)
        requires
            old(self).wf(),
        ensures
            final(self).wf(),
            final(self).batches == old(self).batches,
            keeps_history(old(self).queue.tasks(), final(self).queue.tasks()),
            r is Ok <==> old(self).queue.tasks().contains_key(canceler) && old(
                self,
            ).queue.tasks()[canceler].kind is TaskCancelation,
            match r {
                Ok(count) => final(self).queue.tasks() == after_cancelation(
                    old(self).queue.tasks(),
                    old(self).queue.tasks()[canceler].kind->TaskCancelation_tasks,
                    canceler,
                    now,
                ) && count == reached(
                    old(self).queue.tasks(),
                    old(self).queue.tasks()[canceler].kind->TaskCancelation_tasks,
                ).len(),
                Err(e) => *final(self) == *old(self) && e == Error::CorruptedTaskQueue,
            },
    {
        let ghost m = self.queue.tasks();
        let targets = match self.queue.get_task(canceler) {
            Some(task) => match &task.kind {
                KindWithContent::TaskCancelation { tasks, .. } => tasks.clone(),
                _ => {
                    return Err(Error::CorruptedTaskQueue);
                },
            },
            None => {
                return Err(Error::CorruptedTaskQueue);
            },
        };
        let ghost wanted = members(targets);
        let (changed, count) = self.canceled_records(&targets, canceler, now);
        let ghost cv = task_views(changed@);
        proof {
            assert forall|j: int| 0 <= j < cv.len() implies m.contains_key((#[trigger] cv[j]).uid)
                && legal_update(m[cv[j].uid], cv[j]) by {
                assert(cv[j] == changed[j]@);
                assert(reached(m, wanted).contains(changed[j].uid));
            }
        }
        match self.queue.commit_tasks(&changed) {
            Ok(()) => {},
            Err(_) => {
                assert(false);
            },
        }
        proof {
            let goal = after_cancelation(m, wanted, canceler, now);
            assert forall|uid: TaskId| #[trigger]
                self.queue.tasks().contains_key(uid) == goal.contains_key(uid) by {
                lemma_overwritten(m, cv, cv.len() as int, uid);
                if exists|j: int| 0 <= j < cv.len() && (#[trigger] cv[j]).uid == uid {
                    let j = choose|j: int| 0 <= j < cv.len() && (#[trigger] cv[j]).uid == uid;
                    assert(reached(m, wanted).contains(changed[j].uid));
                }
            }
            assert forall|uid: TaskId| self.queue.tasks().contains_key(uid) implies #[trigger]
                self.queue.tasks()[uid] == goal[uid] by {
                lemma_overwritten(m, cv, cv.len() as int, uid);
                if exists|j: int| 0 <= j < cv.len() && (#[trigger] cv[j]).uid == uid {
                    let j = choose|j: int| 0 <= j < cv.len() && (#[trigger] cv[j]).uid == uid;
                    assert(cv[j] == changed[j]@);
                    assert(reached(m, wanted).contains(changed[j].uid));
                } else {
                    if reached(m, wanted).contains(uid) {
                        let j = choose|j: int|
                            0 <= j < changed.len() && (#[trigger] changed[j]).uid == uid;
                        assert(cv[j].uid == uid);
                    }
                }
            }
            assert(self.queue.tasks() =~= goal);
        }
        Ok(count)
    }

    /// Carries out a deletion of tasks that is on record: every target that is on
    /// record and has reached a terminal status is taken off the record. The result
    /// counts the tasks deleted.
    ///
    /// Fails with `CorruptedTaskQueue`, and changes nothing, when `deleter` is not on
    /// record as a deletion of tasks.
    pub fn process_task_deletion(&mut self, deleter: TaskId) -> (r: Result<u64, Error>)
        requires
            old(self).wf(),
        ensures
            final(self).wf(),
            final(self).batches == old(self).batches,
            r is Ok <==> old(self).queue.tasks().contains_key(deleter) && old(
                self,
            ).queue.tasks()[deleter].kind is TaskDeletion,
            match r {
                Ok(count) => final(self).queue.tasks() == old(self).queue.tasks().remove_keys(
                    removable(
                        old(self).queue.tasks(),
                        old(self).queue.tasks()[deleter].kind->TaskDeletion_tasks,
                    ),
                ) && count == removable(
                    old(self).queue.tasks(),
                    old(self).queue.tasks()[deleter].kind->TaskDeletion_tasks,
                ).len(),
                Err(e) => *final(self) == *old(self) && e == Error::CorruptedTaskQueue,
            },
    {
        let ghost m = self.queue.tasks();
        let targets = match self.queue.get_task(deleter) {
            Some(task) => match &task.kind {
                KindWithContent::TaskDeletion { tasks, .. } => tasks.clone(),
                _ => {
                    return Err(Error::CorruptedTaskQueue);
                },
            },
            None => {
                return Err(Error::CorruptedTaskQueue);
            },
        };
        let ghost wanted = members(targets);
        let ids = bitmap_to_vec(&targets);
        let mut gone = bitmap_new();
        let mut i: usize = 0;
        while i < ids.len()
            invariant
                i <= ids.len(),
                self.wf(),
                self.batches == old(self).batches,
                forall|a: int, b: int| 0 <= a < b < ids.len() ==> ids[a] < ids[b],
                forall|v: u32| wanted.contains(v) <==> ids@.contains(v),
                forall|uid: TaskId|
                    #[trigger] members(gone).contains(uid) <==> removable(m, wanted).contains(uid)
                        && exists|k: int| 0 <= k < i && ids[k] == uid,
                self.queue.tasks() == m.remove_keys(members(gone)),
            decreases ids.len() - i,
        {
            let uid = ids[i];
            let ghost gone_before = members(gone);
            let terminal = match self.queue.get_task(uid) {
                Some(task) => task.status.terminal(),
                None => false,
            };
            proof {
                assert(forall|k: int| 0 <= k < i ==> ids[k] != uid) by {
                    assert forall|k: int| 0 <= k < i implies ids[k] != uid by {
                        assert(ids[k] < ids[i as int]);
                    }
                }
                assert(!gone_before.contains(uid));
                assert(ids@.contains(uid));
            }
            if terminal {
                self.queue.remove_task(uid);
                bitmap_insert(&mut gone, uid);
                proof {
                    assert(self.queue.tasks() =~= m.remove_keys(members(gone)));
                }
            }
            proof {
                assert forall|v: TaskId|
                    #[trigger] members(gone).contains(v) <==> removable(m, wanted).contains(v)
                        && exists|k: int| 0 <= k < i + 1 && ids[k] == v by {
                    if gone_before.contains(v) {
                        let k = choose|k: int| 0 <= k < i && ids[k] == v;
                        assert(ids[k] == v);
                    }
                    if v == uid && terminal {
                        assert(ids[i as int] == v);
                    }
                    if removable(m, wanted).contains(v) && exists|k: int|
                        0 <= k < i + 1 && ids[k] == v {
                        let k = choose|k: int| 0 <= k < i + 1 && ids[k] == v;
                        if k < i {
                            assert(ids[k] == v);
                        }
                    }
                }
            }
            i += 1;
        }
        proof {
            assert(members(gone) =~= removable(m, wanted)) by {
                assert forall|v: TaskId|
                    members(gone).contains(v) <==> removable(m, wanted).contains(v) by {
                    if removable(m, wanted).contains(v) {
                        assert(ids@.contains(v));
                        let k = choose|k: int| 0 <= k < ids.len() && ids[k] == v;
                        assert(ids[k] == v);
                    }
                }
            }
        }
        Ok(crate::bitmap::bitmap_len(&gone))
    }

    /// The oldest enqueued cancellation that targets one of the given tasks, if
    /// there is one. The processor asks this when it starts a batch.
    pub fn canceler_of(&self, tasks: &Vec<TaskId>) -> (r: Option<TaskId>)
        requires
            self.wf(),
        ensures
            match r {
                Some(canceler) => self.queue.tasks().contains_key(canceler) && cancels(
                    self.queue.tasks()[canceler],
                    tasks@,
                ) && forall|uid: TaskId|
                    uid < canceler && self.queue.tasks().contains_key(uid) ==> !cancels(
                        #[trigger] self.queue.tasks()[uid],
                        tasks@,
                    ),
                None => forall|uid: TaskId|
                    self.queue.tasks().contains_key(uid) ==> !cancels(
                        #[trigger] self.queue.tasks()[uid],
                        tasks@,
                    ),
            },
    {
        let waiting = self.enqueued_tasks();
        let ghost e = task_views(waiting@);
        let mut i: usize = 0;
        while i < waiting.len()
            invariant
                i <= waiting.len(),
                e == task_views(waiting@),
                self.is_enqueued_list(e),
                forall|j: int| 0 <= j < i ==> !cancels(#[trigger] e[j], tasks@),
            decreases waiting.len() - i,
        {
            assert(e[i as int] == waiting[i as int]@);
            let hit = match &waiting[i].kind {
                KindWithContent::TaskCancelation { tasks: targets, .. } => {
                    let mut found = false;
                    let mut k: usize = 0;
                    while k < tasks.len()
                        invariant
                            k <= tasks.len(),
                            found <==> exists|p: int|
                                0 <= p < k && members(*targets).contains(#[trigger] tasks[p]),
                        decreases tasks.len() - k,
                    {
                        if crate::bitmap::bitmap_contains(targets, tasks[k]) {
                            found = true;
                        }
                        k += 1;
                    }
                    found
                },
                _ => false,
            };
            if hit {
                proof {
                    assert forall|uid: TaskId|
                        uid < waiting[i as int].uid && self.queue.tasks().contains_key(
                            uid,
                        ) implies !cancels(#[trigger] self.queue.tasks()[uid], tasks@) by {
                        if self.queue.tasks()[uid].status == Status::Enqueued {
                            let j = choose|j: int| 0 <= j < e.len() && (#[trigger] e[j]).uid == uid;
                            if j >= i {
                                if j > i {
                                    assert(e[i as int].uid < e[j].uid);
                                }
                            }
                        }
                    }
                }
                return Some(waiting[i].uid);
            }
            i += 1;
        }
        proof {
            assert forall|uid: TaskId| self.queue.tasks().contains_key(uid) implies !cancels(
                #[trigger] self.queue.tasks()[uid],
                tasks@,
            ) by {
                if self.queue.tasks()[uid].status == Status::Enqueued {
                    let j = choose|j: int| 0 <= j < e.len() && (#[trigger] e[j]).uid == uid;
                    assert(!cancels(e[j], tasks@));
                }
            }
        }
        None
    }

    /// Checks that everything that must hold of the tasks on record does hold; see
    /// [`TaskQueue::assert_internally_consistent`].
    pub fn assert_internally_consistent(&self, update_files: &Vec<Uuid>) -> (r: Result<(), TaskId>)
        requires
            self.wf(),
        ensures
            match r {
                Ok(()) => forall|uid: TaskId|
                    self.queue.tasks().contains_key(uid) ==> task_consistent(
                        #[trigger] self.queue.tasks()[uid],
                        self.queue.tasks(),
                        file_set(update_files@),
                    ),
                Err(uid) => self.queue.tasks().contains_key(uid) && !task_consistent(
                    self.queue.tasks()[uid],
                    self.queue.tasks(),
                    file_set(update_files@),
                ) && forall|lower: TaskId|
                    lower < uid && self.queue.tasks().contains_key(lower) ==> task_consistent(
                        #[trigger] self.queue.tasks()[lower],
                        self.queue.tasks(),
                        file_set(update_files@),
                    ),
            },
    {
        self.queue.assert_internally_consistent(update_files)
    }
}

} // verus!

//! What must hold of every task on record, beyond the truth of the tables.

use crate::bitmap::{bitmap_contains, bitmap_len};
use crate::queue::TaskQueue;
use crate::tasks::{
    opt_string_view, strings_view, swaps_view, Details, DetailsView, IndexSwap, Kind, KindView,
    KindWithContent, Status, Task, TaskId, TaskView,
};
use uuid::Uuid;
use vstd::prelude::*;

verus! {

/// `PartialEq::eq` of two identifiers: true when they are the same identifier.
#[verifier::external_body]
pub(crate) fn uuid_equal(a: &Uuid, b: &Uuid) -> (r: bool)
    ensures
        r == (*a == *b),
{
    a == b
}

/// Whether the details fit the kind and the status of the task that carries them.
pub open spec fn details_consistent(d: DetailsView, kind: KindView, status: Status) -> bool {
    match d {
        DetailsView::IndexSwap { swaps } => kind matches KindView::IndexSwap { swaps: of_kind }
            ==> swaps == of_kind,
        DetailsView::DocumentAdditionOrUpdate { received_documents, indexed_documents } => {
            &&& kind.as_kind() == Kind::DocumentAdditionOrUpdate
            &&& match indexed_documents {
                Some(n) => match status {
                    Status::Succeeded => n <= received_documents,
                    Status::Failed | Status::Canceled => n == 0,
                    _ => false,
                },
                None => status == Status::Enqueued || status == Status::Processing,
            }
        },
        DetailsView::DocumentEdition { edited_documents, .. } => {
            &&& kind.as_kind() == Kind::DocumentEdition
            &&& match edited_documents {
                Some(n) => match status {
                    Status::Succeeded => true,
                    Status::Failed | Status::Canceled => n == 0,
                    _ => false,
                },
                None => status == Status::Enqueued || status == Status::Processing,
            }
        },
        DetailsView::SettingsUpdate { .. } => kind.as_kind() == Kind::SettingsUpdate,
        DetailsView::IndexInfo { primary_key } => match kind {
            KindView::IndexCreation { primary_key: of_kind, .. } => primary_key == of_kind,
            KindView::IndexUpdate { primary_key: of_kind, .. } => primary_key == of_kind,
            _ => false,
        },
        DetailsView::DocumentDeletion { provided_ids, deleted_documents } => match kind {
            KindView::DocumentDeletion { documents_ids, .. } => match status {
                Status::Enqueued | Status::Processing => true,
                Status::Succeeded => deleted_documents matches Some(n) && n <= provided_ids
                    && documents_ids.len() == provided_ids,
                Status::Failed | Status::Canceled => deleted_documents == Some(0u64)
                    && documents_ids.len() == provided_ids,
            },
            _ => false,
        },
        DetailsView::DocumentDeletionByFilter { deleted_documents, .. } => match kind {
            KindView::DocumentDeletionByFilter { .. } => match status {
                Status::Enqueued | Status::Processing => true,
                Status::Succeeded => deleted_documents is Some,
                Status::Failed | Status::Canceled => deleted_documents == Some(0u64),
            },
            _ => false,
        },
        DetailsView::ClearAll { deleted_documents } => {
            &&& kind.as_kind() == Kind::DocumentDeletion || kind.as_kind() == Kind::IndexDeletion
            &&& (deleted_documents is Some <==> status == Status::Succeeded)
        },
        DetailsView::TaskCancelation { matched_tasks, canceled_tasks, original_filter } => match canceled_tasks {
            Some(n) => status == Status::Succeeded && n <= matched_tasks && (
            kind matches KindView::TaskCancelation { query, tasks } && query == original_filter
                && tasks.len() == matched_tasks),
            None => status != Status::Succeeded,
        },
        DetailsView::TaskDeletion { matched_tasks, deleted_tasks, original_filter } => match deleted_tasks {
            Some(n) => status == Status::Succeeded && n <= matched_tasks && (
            kind matches KindView::TaskDeletion { query, tasks } && query == original_filter
                && tasks.len() == matched_tasks),
            None => status != Status::Succeeded,
        },
        DetailsView::Dump { .. } => kind.as_kind() == Kind::DumpCreation,
    }
}

/// Whether a task that was canceled names a canceler that can have canceled it: a
/// cancellation task on record that succeeded and targets the task.
pub open spec fn canceler_consistent(t: TaskView, m: Map<TaskId, TaskView>) -> bool {
    t.canceled_by matches Some(c) ==> {
        &&& t.status == Status::Canceled
        &&& m.contains_key(c)
        &&& m[c].status == Status::Succeeded
        &&& m[c].kind matches KindView::TaskCancelation { tasks, .. } && tasks.contains(t.uid)
    }
}

/// Whether the update file of a task is where it should be: present while the
/// task waits or runs, gone once the task has reached a terminal status.
pub open spec fn update_file_consistent(t: TaskView, files: Set<Uuid>) -> bool {
    t.kind matches KindView::DocumentAdditionOrUpdate { content_file, .. } ==> (files.contains(
        content_file,
    ) <==> !t.status.is_terminal())
}

/// Everything that must hold of one task on record.
pub open spec fn task_consistent(t: TaskView, m: Map<TaskId, TaskView>, files: Set<Uuid>) -> bool {
    &&& canceler_consistent(t, m)
    &&& (t.details matches Some(d) ==> details_consistent(d, t.kind, t.status))
    &&& update_file_consistent(t, files)
}

/// Whether two optional texts are the same.
pub fn opt_text_equal(a: &Option<String>, b: &Option<String>) -> (r: bool)
    ensures
        r == (opt_string_view(*a) == opt_string_view(*b)),
{
    match (a, b) {
        (None, None) => true,
        (Some(x), Some(y)) => *x == *y,
        _ => false,
    }
}

fn same_swaps(a: &Vec<IndexSwap>, b: &Vec<IndexSwap>) -> (r: bool)
    ensures
        r == (swaps_view(a@) == swaps_view(b@)),
{
    if a.len() != b.len() {
        assert(swaps_view(a@).len() != swaps_view(b@).len());
        return false;
    }
    let mut i: usize = 0;
    while i < a.len()
        invariant
            i <= a.len(),
            a.len() == b.len(),
            forall|j: int| 0 <= j < i ==> (#[trigger] a[j])@ == b[j]@,
        decreases a.len() - i,
    {
        if !(a[i].indexes.0 == b[i].indexes.0 && a[i].indexes.1 == b[i].indexes.1) {
            proof {
                assert(swaps_view(a@)[i as int] == a[i as int]@);
                assert(swaps_view(b@)[i as int] == b[i as int]@);
            }
            return false;
        }
        i += 1;
    }
    assert(swaps_view(a@) =~= swaps_view(b@));
    true
}

fn check_details(details: &Details, kind: &KindWithContent, status: Status) -> (r: bool)
    ensures
        r == details_consistent(details@, kind@, status),
{
    match details {
        Details::IndexSwap { swaps } => match kind {
            KindWithContent::IndexSwap { swaps: of_kind } => same_swaps(swaps, of_kind),
            _ => true,
        },
        Details::DocumentAdditionOrUpdate { received_documents, indexed_documents } => {
            kind.as_kind() == Kind::DocumentAdditionOrUpdate && match indexed_documents {
                Some(n) => match status {
                    Status::Succeeded => *n <= *received_documents,
                    Status::Failed | Status::Canceled => *n == 0,
                    _ => false,
                },
                None => status == Status::Enqueued || status == Status::Processing,
            }
        },
        Details::DocumentEdition { edited_documents, .. } => {
            kind.as_kind() == Kind::DocumentEdition && match edited_documents {
                Some(n) => match status {
                    Status::Succeeded => true,
                    Status::Failed | Status::Canceled => *n == 0,
                    _ => false,
                },
                None => status == Status::Enqueued || status == Status::Processing,
            }
        },
        Details::SettingsUpdate { .. } => kind.as_kind() == Kind::SettingsUpdate,
        Details::IndexInfo { primary_key } => match kind {
            KindWithContent::IndexCreation { primary_key: of_kind, .. } => opt_text_equal(
                primary_key,
                of_kind,
            ),
            KindWithContent::IndexUpdate { primary_key: of_kind, .. } => opt_text_equal(
                primary_key,
                of_kind,
            ),
            _ => false,
        },
        Details::DocumentDeletion { provided_ids, deleted_documents } => match kind {
            KindWithContent::DocumentDeletion { documents_ids, .. } => {
                assert(strings_view(documents_ids@).len() == documents_ids@.len());
                match status {
                    Status::Enqueued | Status::Processing => true,
                    Status::Succeeded => match deleted_documents {
                        Some(n) => *n <= *provided_ids && documents_ids.len() as u64
                            == *provided_ids,
                        None => false,
                    },
                    Status::Failed | Status::Canceled => match deleted_documents {
                        Some(n) => *n == 0 && documents_ids.len() as u64 == *provided_ids,
                        None => false,
                    },
                }
            },
            _ => false,
        },
        Details::DocumentDeletionByFilter { deleted_documents, .. } => match kind {
            KindWithContent::DocumentDeletionByFilter { .. } => match status {
                Status::Enqueued | Status::Processing => true,
                Status::Succeeded => deleted_documents.is_some(),
                Status::Failed | Status::Canceled => match deleted_documents {
                    Some(n) => *n == 0,
                    None => false,
                },
            },
            _ => false,
        },
        Details::ClearAll { deleted_documents } => {
            let kind = kind.as_kind();
            (kind == Kind::DocumentDeletion || kind == Kind::IndexDeletion) && (
            deleted_documents.is_some() == (status == Status::Succeeded))
        },
        Details::TaskCancelation {
            matched_tasks,
            canceled_tasks,
            original_filter,
        } => match canceled_tasks {
            Some(n) => status == Status::Succeeded && *n <= *matched_tasks && match kind {
                KindWithContent::TaskCancelation { query, tasks } => *query == *original_filter
                    && bitmap_len(tasks) == *matched_tasks,
                _ => false,
            },
            None => status != Status::Succeeded,
        },
        Details::TaskDeletion { matched_tasks, deleted_tasks, original_filter } => match deleted_tasks {
            Some(n) => status == Status::Succeeded && *n <= *matched_tasks && match kind {
                KindWithContent::TaskDeletion { query, tasks } => *query == *original_filter
                    && bitmap_len(tasks) == *matched_tasks,
                _ => false,
            },
            None => status != Status::Succeeded,
        },
        Details::Dump { .. } => kind.as_kind() == Kind::DumpCreation,
    }
}

/// The identifiers of a list, as a set.
pub open spec fn file_set(files: Seq<Uuid>) -> Set<Uuid> {
    Set::new(|id: Uuid| exists|i: int| 0 <= i < files.len() && #[trigger] files[i] == id)
}

fn holds_file(files: &Vec<Uuid>, id: &Uuid) -> (r: bool)
    ensures
        r == file_set(files@).contains(*id),
{
    let mut i: usize = 0;
    while i < files.len()
        invariant
            i <= files.len(),
            forall|j: int| 0 <= j < i ==> #[trigger] files[j] != *id,
        decreases files.len() - i,
    {
        if uuid_equal(&files[i], id) {
            return true;
        }
        i += 1;
    }
    false
}

impl TaskQueue {
    /// Whether everything that must hold of a task on record holds of `task`, given
    /// the update files that exist. The tables are asked too, though they cannot but
    /// agree.
    pub fn check_task(&self, task: &Task, update_files: &Vec<Uuid>) -> (r: bool)
        requires
            self.wf(),
            self.tasks().contains_key(task.uid),
            self.tasks()[task.uid] == task@,
        ensures
            r == task_consistent(task@, self.tasks(), file_set(update_files@)),
    {
        let uid = task.uid;
        proof {
            self.lemma_by_status(task.status, uid);
            self.lemma_by_kind(task@.kind.as_kind(), uid);
            self.lemma_by_time(task.enqueued_at, uid);
            if task.started_at is Some {
                self.lemma_by_time(task.started_at->0, uid);
            }
            if task.finished_at is Some {
                self.lemma_by_time(task.finished_at->0, uid);
            }
            if task.batch_uid is Some {
                self.lemma_by_batch(task.batch_uid->0, uid);
            }
            if task@.kind.index_uid() is Some {
                self.lemma_by_index(task@.kind.index_uid()->0, uid);
            }
        }
        let mut filed = self.in_status(task.status, uid) && self.in_kind(task.kind.as_kind(), uid)
            && self.enqueued_at_contains(task.enqueued_at, uid);
        match task.batch_uid {
            Some(batch) => {
                filed = filed && self.in_batch(batch, uid);
            },
            None => {},
        }
        match task.index_uid() {
            Some(index) => {
                filed = filed && self.in_index(index, uid);
            },
            None => {},
        }
        match task.started_at {
            Some(at) => {
                filed = filed && self.started_at_contains(at, uid);
            },
            None => {},
        }
        match task.finished_at {
            Some(at) => {
                filed = filed && self.finished_at_contains(at, uid);
            },
            None => {},
        }
        assert(filed);
        let canceler_ok = match task.canceled_by {
            Some(canceler) => task.status == Status::Canceled && match self.get_task(canceler) {
                Some(by) => by.status == Status::Succeeded && match &by.kind {
                    KindWithContent::TaskCancelation { tasks, .. } => bitmap_contains(tasks, uid),
                    _ => false,
                },
                None => false,
            },
            None => true,
        };
        let details_ok = match &task.details {
            Some(details) => check_details(details, &task.kind, task.status),
            None => true,
        };
        let file_ok = match &task.kind {
            KindWithContent::DocumentAdditionOrUpdate { content_file, .. } => holds_file(
                update_files,
                content_file,
            ) == !task.status.terminal(),
            _ => true,
        };
        filed && canceler_ok && details_ok && file_ok
    }

    /// Checks that everything that must hold of the tasks on record does hold, given
    /// the update files that exist.
    ///
    /// The error names the task with the lowest identifier of which something does
    /// not hold.
    pub fn assert_internally_consistent(&self, update_files: &Vec<Uuid>) -> (r: Result<
        (),
        TaskId,
    >)
        requires
            self.wf(),
        ensures
            match r {
                Ok(()) => forall|uid: TaskId|
                    self.tasks().contains_key(uid) ==> task_consistent(
                        #[trigger] self.tasks()[uid],
                        self.tasks(),
                        file_set(update_files@),
                    ),
                Err(uid) => self.tasks().contains_key(uid) && !task_consistent(
                    self.tasks()[uid],
                    self.tasks(),
                    file_set(update_files@),
                ) && forall|lower: TaskId|
                    lower < uid && self.tasks().contains_key(lower) ==> task_consistent(
                        #[trigger] self.tasks()[lower],
                        self.tasks(),
                        file_set(update_files@),
                    ),
            },
    {
        proof {
            self.lemma_nth();
        }
        let mut i: usize = 0;
        while i < self.len()
            invariant
                i <= self.spec_len(),
                self.wf(),
                forall|j: int|
                    0 <= j < i ==> task_consistent(
                        (#[trigger] self.spec_nth(j))@,
                        self.tasks(),
                        file_set(update_files@),
                    ),
                forall|j: int|
                    0 <= j < self.spec_len() ==> self.tasks().contains_key(
                        (#[trigger] self.spec_nth(j)).uid,
                    ) && self.tasks()[self.spec_nth(j).uid] == self.spec_nth(j)@,
                forall|uid: TaskId|
                    self.tasks().contains_key(uid) ==> exists|j: int|
                        0 <= j < self.spec_len() && (#[trigger] self.spec_nth(j)).uid == uid,
                forall|a: int, b: int|
                    0 <= a < b < self.spec_len() ==> (#[trigger] self.spec_nth(a)).uid < (
                    #[trigger] self.spec_nth(b)).uid,
            decreases self.spec_len() - i,
        {
            let task = self.nth(i);
            assert(self.tasks().contains_key(self.spec_nth(i as int).uid));
            if !self.check_task(task, update_files) {
                proof {
                    assert forall|lower: TaskId|
                        lower < task.uid && self.tasks().contains_key(
                            lower,
                        ) implies task_consistent(
                        #[trigger] self.tasks()[lower],
                        self.tasks(),
                        file_set(update_files@),
                    ) by {
                        let j = choose|j: int|
                            0 <= j < self.spec_len() && (#[trigger] self.spec_nth(j)).uid == lower;
                        if j >= i {
                            if j > i {
                                assert(self.spec_nth(i as int).uid < self.spec_nth(j).uid);
                            }
                        }
                        assert(task_consistent(
                            self.spec_nth(j)@,
                            self.tasks(),
                            file_set(update_files@),
                        ));
                    }
                }
                return Err(task.uid);
            }
            i += 1;
        }
        proof {
            assert forall|uid: TaskId| self.tasks().contains_key(uid) implies task_consistent(
                #[trigger] self.tasks()[uid],
                self.tasks(),
                file_set(update_files@),
            ) by {
                let j = choose|j: int|
                    0 <= j < self.spec_len() && (#[trigger] self.spec_nth(j)).uid == uid;
                assert(task_consistent(self.spec_nth(j)@, self.tasks(), file_set(update_files@)));
            }
        }
        Ok(())
    }
}

} // verus!

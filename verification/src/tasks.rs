//! Tasks: the units of work that the queue records.

use crate::bitmap::{bitmap_len, members};
use crate::table::TableKey;
use roaring::RoaringBitmap;
use uuid::Uuid;
use vstd::prelude::*;

verus! {

#[verifier::external_type_specification]
#[verifier::external_body]
pub struct ExUuid(uuid::Uuid);

/// `Clone::clone` of an identifier: the same identifier.
pub assume_specification[ <Uuid as Clone>::clone ](id: &Uuid) -> (r: Uuid)
    ensures
        r == *id,
;

pub type TaskId = u32;

pub type BatchId = u32;

/// Where a task stands in its life.
#[derive(Clone, Copy, Debug, PartialEq, Eq, Structural, Hash)]
pub enum Status {
    Enqueued,
    Processing,
    Succeeded,
    Failed,
    Canceled,
}

impl Status {
    /// Succeeded, failed and canceled tasks never change again.
    pub open spec fn is_terminal(self) -> bool {
        self == Status::Succeeded || self == Status::Failed || self == Status::Canceled
    }

    pub fn terminal(&self) -> (r: bool)
        ensures
            r == self.is_terminal(),
    {
        match self {
            Status::Succeeded | Status::Failed | Status::Canceled => true,
            Status::Enqueued | Status::Processing => false,
        }
    }
}

impl TableKey for Status {
    type V = Status;

    open spec fn key(&self) -> Status {
        *self
    }

    fn same(&self, other: &Self) -> (r: bool) {
        *self == *other
    }

    fn duplicate(&self) -> (r: Self) {
        *self
    }
}

/// The kind of a task, without its content.
#[derive(Clone, Copy, Debug, PartialEq, Eq, Structural, Hash)]
pub enum Kind {
    DocumentAdditionOrUpdate,
    DocumentEdition,
    DocumentDeletion,
    SettingsUpdate,
    IndexCreation,
    IndexDeletion,
    IndexUpdate,
    IndexSwap,
    TaskCancelation,
    TaskDeletion,
    DumpCreation,
    SnapshotCreation,
}

impl TableKey for Kind {
    type V = Kind;

    open spec fn key(&self) -> Kind {
        *self
    }

    fn same(&self, other: &Self) -> (r: bool) {
        *self == *other
    }

    fn duplicate(&self) -> (r: Self) {
        *self
    }
}

/// Whether new documents replace the stored ones or are merged into them.
#[derive(Clone, Copy, Debug, PartialEq, Eq, Structural, Hash)]
pub enum IndexDocumentsMethod {
    ReplaceDocuments,
    UpdateDocuments,
}

/// Two index names whose contents trade places.
#[derive(Debug, PartialEq, Eq)]
pub struct IndexSwap {
    pub indexes: (String, String),
}

impl Clone for IndexSwap {
    fn clone(&self) -> (r: Self)
        ensures
            r@ == self@,
    {
        IndexSwap { indexes: (self.indexes.0.clone(), self.indexes.1.clone()) }
    }
}

impl View for IndexSwap {
    type V = (Seq<char>, Seq<char>);

    open spec fn view(&self) -> (Seq<char>, Seq<char>) {
        (self.indexes.0@, self.indexes.1@)
    }
}

pub open spec fn strings_view(v: Seq<String>) -> Seq<Seq<char>> {
    v.map_values(|s: String| s@)
}

pub open spec fn opt_string_view(o: Option<String>) -> Option<Seq<char>> {
    match o {
        Some(s) => Some(s@),
        None => None,
    }
}

pub open spec fn swaps_view(v: Seq<IndexSwap>) -> Seq<(Seq<char>, Seq<char>)> {
    v.map_values(|s: IndexSwap| s@)
}

/// The index names that a list of swaps mentions.
pub open spec fn swap_names(swaps: Seq<(Seq<char>, Seq<char>)>) -> Set<Seq<char>> {
    Set::new(
        |name: Seq<char>|
            exists|i: int|
                0 <= i < swaps.len() && ((#[trigger] swaps[i]).0 == name || swaps[i].1 == name),
    )
}

/// A task's kind together with what it needs to run.
#[allow(inconsistent_fields)]
#[derive(Debug, PartialEq)]
pub enum KindWithContent {
    DocumentAdditionOrUpdate {
        index_uid: String,
        primary_key: Option<String>,
        method: IndexDocumentsMethod,
        content_file: Uuid,
        documents_count: u64,
        allow_index_creation: bool,
    },
    DocumentEdition { index_uid: String, filter_expr: Option<String>, function: String },
    DocumentDeletion { index_uid: String, documents_ids: Vec<String> },
    DocumentDeletionByFilter { index_uid: String, filter_expr: String },
    DocumentClear { index_uid: String },
    SettingsUpdate {
        index_uid: String,
        new_settings: String,
        is_deletion: bool,
        allow_index_creation: bool,
    },
    IndexDeletion { index_uid: String },
    IndexCreation { index_uid: String, primary_key: Option<String> },
    IndexUpdate { index_uid: String, primary_key: Option<String> },
    IndexSwap { swaps: Vec<IndexSwap> },
    TaskCancelation { query: String, tasks: RoaringBitmap },
    TaskDeletion { query: String, tasks: RoaringBitmap },
    DumpCreation { instance_uid: Option<Uuid> },
    SnapshotCreation,
}

/// What a [`KindWithContent`] stands for.
#[allow(inconsistent_fields)]
pub enum KindView {
    DocumentAdditionOrUpdate {
        index_uid: Seq<char>,
        primary_key: Option<Seq<char>>,
        method: IndexDocumentsMethod,
        content_file: Uuid,
        documents_count: u64,
        allow_index_creation: bool,
    },
    DocumentEdition { index_uid: Seq<char>, filter_expr: Option<Seq<char>>, function: Seq<char> },
    DocumentDeletion { index_uid: Seq<char>, documents_ids: Seq<Seq<char>> },
    DocumentDeletionByFilter { index_uid: Seq<char>, filter_expr: Seq<char> },
    DocumentClear { index_uid: Seq<char> },
    SettingsUpdate {
        index_uid: Seq<char>,
        new_settings: Seq<char>,
        is_deletion: bool,
        allow_index_creation: bool,
    },
    IndexDeletion { index_uid: Seq<char> },
    IndexCreation { index_uid: Seq<char>, primary_key: Option<Seq<char>> },
    IndexUpdate { index_uid: Seq<char>, primary_key: Option<Seq<char>> },
    IndexSwap { swaps: Seq<(Seq<char>, Seq<char>)> },
    TaskCancelation { query: Seq<char>, tasks: Set<u32> },
    TaskDeletion { query: Seq<char>, tasks: Set<u32> },
    DumpCreation { instance_uid: Option<Uuid> },
    SnapshotCreation,
}

impl KindView {
    pub open spec fn as_kind(self) -> Kind {
        match self {
            KindView::DocumentAdditionOrUpdate { .. } => Kind::DocumentAdditionOrUpdate,
            KindView::DocumentEdition { .. } => Kind::DocumentEdition,
            KindView::DocumentDeletion { .. } => Kind::DocumentDeletion,
            KindView::DocumentDeletionByFilter { .. } => Kind::DocumentDeletion,
            KindView::DocumentClear { .. } => Kind::DocumentDeletion,
            KindView::SettingsUpdate { .. } => Kind::SettingsUpdate,
            KindView::IndexDeletion { .. } => Kind::IndexDeletion,
            KindView::IndexCreation { .. } => Kind::IndexCreation,
            KindView::IndexUpdate { .. } => Kind::IndexUpdate,
            KindView::IndexSwap { .. } => Kind::IndexSwap,
            KindView::TaskCancelation { .. } => Kind::TaskCancelation,
            KindView::TaskDeletion { .. } => Kind::TaskDeletion,
            KindView::DumpCreation { .. } => Kind::DumpCreation,
            KindView::SnapshotCreation => Kind::SnapshotCreation,
        }
    }

    /// The one index that the task works on, if it works on exactly one by name.
    pub open spec fn index_uid(self) -> Option<Seq<char>> {
        match self {
            KindView::DocumentAdditionOrUpdate { index_uid, .. } => Some(index_uid),
            KindView::DocumentEdition { index_uid, .. } => Some(index_uid),
            KindView::DocumentDeletion { index_uid, .. } => Some(index_uid),
            KindView::DocumentDeletionByFilter { index_uid, .. } => Some(index_uid),
            KindView::DocumentClear { index_uid } => Some(index_uid),
            KindView::SettingsUpdate { index_uid, .. } => Some(index_uid),
            KindView::IndexDeletion { index_uid } => Some(index_uid),
            KindView::IndexCreation { index_uid, .. } => Some(index_uid),
            KindView::IndexUpdate { index_uid, .. } => Some(index_uid),
            KindView::IndexSwap { .. } => None,
            KindView::TaskCancelation { .. } => None,
            KindView::TaskDeletion { .. } => None,
            KindView::DumpCreation { .. } => None,
            KindView::SnapshotCreation => None,
        }
    }

    /// The details that a task of this kind starts out with.
    pub open spec fn default_details(self) -> Option<DetailsView> {
        match self {
            KindView::DocumentAdditionOrUpdate { documents_count, .. } => Some(
                DetailsView::DocumentAdditionOrUpdate {
                    received_documents: documents_count,
                    indexed_documents: None,
                },
            ),
            KindView::DocumentEdition { function, .. } => Some(
                DetailsView::DocumentEdition { edited_documents: None, function },
            ),
            KindView::DocumentDeletion { documents_ids, .. } => Some(
                DetailsView::DocumentDeletion {
                    provided_ids: documents_ids.len() as u64,
                    deleted_documents: None,
                },
            ),
            KindView::DocumentDeletionByFilter { filter_expr, .. } => Some(
                DetailsView::DocumentDeletionByFilter {
                    original_filter: filter_expr,
                    deleted_documents: None,
                },
            ),
            KindView::DocumentClear { .. } => Some(
                DetailsView::ClearAll { deleted_documents: None },
            ),
            KindView::SettingsUpdate { new_settings, .. } => Some(
                DetailsView::SettingsUpdate { settings: new_settings },
            ),
            KindView::IndexDeletion { .. } => Some(
                DetailsView::ClearAll { deleted_documents: None },
            ),
            KindView::IndexCreation { primary_key, .. } => Some(
                DetailsView::IndexInfo { primary_key },
            ),
            KindView::IndexUpdate { primary_key, .. } => Some(
                DetailsView::IndexInfo { primary_key },
            ),
            KindView::IndexSwap { swaps } => Some(DetailsView::IndexSwap { swaps }),
            KindView::TaskCancelation { query, tasks } => Some(
                DetailsView::TaskCancelation {
                    matched_tasks: tasks.len() as u64,
                    canceled_tasks: None,
                    original_filter: query,
                },
            ),
            KindView::TaskDeletion { query, tasks } => Some(
                DetailsView::TaskDeletion {
                    matched_tasks: tasks.len() as u64,
                    deleted_tasks: None,
                    original_filter: query,
                },
            ),
            KindView::DumpCreation { .. } => Some(DetailsView::Dump { dump_uid: None }),
            KindView::SnapshotCreation => None,
        }
    }

    /// Every index name that the task refers to.
    pub open spec fn indexes(self) -> Set<Seq<char>> {
        match self {
            KindView::IndexSwap { swaps } => swap_names(swaps),
            _ => match self.index_uid() {
                Some(name) => set![name],
                None => Set::empty(),
            },
        }
    }
}

impl View for KindWithContent {
    type V = KindView;

    open spec fn view(&self) -> KindView {
        match *self {
            KindWithContent::DocumentAdditionOrUpdate {
                index_uid,
                primary_key,
                method,
                content_file,
                documents_count,
                allow_index_creation,
            } => KindView::DocumentAdditionOrUpdate {
                index_uid: index_uid@,
                primary_key: opt_string_view(primary_key),
                method,
                content_file,
                documents_count,
                allow_index_creation,
            },
            KindWithContent::DocumentEdition {
                index_uid,
                filter_expr,
                function,
            } => KindView::DocumentEdition {
                index_uid: index_uid@,
                filter_expr: opt_string_view(filter_expr),
                function: function@,
            },
            KindWithContent::DocumentDeletion {
                index_uid,
                documents_ids,
            } => KindView::DocumentDeletion {
                index_uid: index_uid@,
                documents_ids: strings_view(documents_ids@),
            },
            KindWithContent::DocumentDeletionByFilter {
                index_uid,
                filter_expr,
            } => KindView::DocumentDeletionByFilter {
                index_uid: index_uid@,
                filter_expr: filter_expr@,
            },
            KindWithContent::DocumentClear { index_uid } => KindView::DocumentClear {
                index_uid: index_uid@,
            },
            KindWithContent::SettingsUpdate {
                index_uid,
                new_settings,
                is_deletion,
                allow_index_creation,
            } => KindView::SettingsUpdate {
                index_uid: index_uid@,
                new_settings: new_settings@,
                is_deletion,
                allow_index_creation,
            },
            KindWithContent::IndexDeletion { index_uid } => KindView::IndexDeletion {
                index_uid: index_uid@,
            },
            KindWithContent::IndexCreation { index_uid, primary_key } => KindView::IndexCreation {
                index_uid: index_uid@,
                primary_key: opt_string_view(primary_key),
            },
            KindWithContent::IndexUpdate { index_uid, primary_key } => KindView::IndexUpdate {
                index_uid: index_uid@,
                primary_key: opt_string_view(primary_key),
            },
            KindWithContent::IndexSwap { swaps } => KindView::IndexSwap {
                swaps: swaps_view(swaps@),
            },
            KindWithContent::TaskCancelation { query, tasks } => KindView::TaskCancelation {
                query: query@,
                tasks: members(tasks),
            },
            KindWithContent::TaskDeletion { query, tasks } => KindView::TaskDeletion {
                query: query@,
                tasks: members(tasks),
            },
            KindWithContent::DumpCreation { instance_uid } => KindView::DumpCreation {
                instance_uid,
            },
            KindWithContent::SnapshotCreation => KindView::SnapshotCreation,
        }
    }
}

/// What a task has to report: counters and parameters.
#[derive(Debug, PartialEq)]
pub enum Details {
    DocumentAdditionOrUpdate { received_documents: u64, indexed_documents: Option<u64> },
    DocumentEdition { edited_documents: Option<u64>, function: String },
    SettingsUpdate { settings: String },
    IndexInfo { primary_key: Option<String> },
    DocumentDeletion { provided_ids: u64, deleted_documents: Option<u64> },
    DocumentDeletionByFilter { original_filter: String, deleted_documents: Option<u64> },
    ClearAll { deleted_documents: Option<u64> },
    TaskCancelation { matched_tasks: u64, canceled_tasks: Option<u64>, original_filter: String },
    TaskDeletion { matched_tasks: u64, deleted_tasks: Option<u64>, original_filter: String },
    Dump { dump_uid: Option<String> },
    IndexSwap { swaps: Vec<IndexSwap> },
}

/// What a [`Details`] stands for.
pub enum DetailsView {
    DocumentAdditionOrUpdate { received_documents: u64, indexed_documents: Option<u64> },
    DocumentEdition { edited_documents: Option<u64>, function: Seq<char> },
    SettingsUpdate { settings: Seq<char> },
    IndexInfo { primary_key: Option<Seq<char>> },
    DocumentDeletion { provided_ids: u64, deleted_documents: Option<u64> },
    DocumentDeletionByFilter { original_filter: Seq<char>, deleted_documents: Option<u64> },
    ClearAll { deleted_documents: Option<u64> },
    TaskCancelation {
        matched_tasks: u64,
        canceled_tasks: Option<u64>,
        original_filter: Seq<char>,
    },
    TaskDeletion { matched_tasks: u64, deleted_tasks: Option<u64>, original_filter: Seq<char> },
    Dump { dump_uid: Option<Seq<char>> },
    IndexSwap { swaps: Seq<(Seq<char>, Seq<char>)> },
}

impl View for Details {
    type V = DetailsView;

    open spec fn view(&self) -> DetailsView {
        match *self {
            Details::DocumentAdditionOrUpdate {
                received_documents,
                indexed_documents,
            } => DetailsView::DocumentAdditionOrUpdate { received_documents, indexed_documents },
            Details::DocumentEdition { edited_documents, function } => DetailsView::DocumentEdition {
                edited_documents,
                function: function@,
            },
            Details::SettingsUpdate { settings } => DetailsView::SettingsUpdate {
                settings: settings@,
            },
            Details::IndexInfo { primary_key } => DetailsView::IndexInfo {
                primary_key: opt_string_view(primary_key),
            },
            Details::DocumentDeletion {
                provided_ids,
                deleted_documents,
            } => DetailsView::DocumentDeletion { provided_ids, deleted_documents },
            Details::DocumentDeletionByFilter {
                original_filter,
                deleted_documents,
            } => DetailsView::DocumentDeletionByFilter {
                original_filter: original_filter@,
                deleted_documents,
            },
            Details::ClearAll { deleted_documents } => DetailsView::ClearAll { deleted_documents },
            Details::TaskCancelation {
                matched_tasks,
                canceled_tasks,
                original_filter,
            } => DetailsView::TaskCancelation {
                matched_tasks,
                canceled_tasks,
                original_filter: original_filter@,
            },
            Details::TaskDeletion {
                matched_tasks,
                deleted_tasks,
                original_filter,
            } => DetailsView::TaskDeletion {
                matched_tasks,
                deleted_tasks,
                original_filter: original_filter@,
            },
            Details::Dump { dump_uid } => DetailsView::Dump { dump_uid: opt_string_view(dump_uid) },
            Details::IndexSwap { swaps } => DetailsView::IndexSwap { swaps: swaps_view(swaps@) },
        }
    }
}

pub open spec fn opt_details_view(o: Option<Details>) -> Option<DetailsView> {
    match o {
        Some(d) => Some(d@),
        None => None,
    }
}

/// The codes under which a failure is reported.
#[derive(Clone, Copy, Debug, PartialEq, Eq, Structural, Hash)]
pub enum Code {
    InvalidIndexUid,
    IndexNotFound,
    IndexAlreadyExists,
    PrimaryKeyInference,
    MalformedPayload,
    DocumentIdMissing,
    DocumentIdInvalid,
    DuplicateIndexInSwap,
    SortableAttributeMissing,
    ImmutableField,
    NoSpaceLeftOnDevice,
    DatabaseSizeLimitReached,
    TooManyOpenFiles,
    CorruptedTaskQueue,
    Io,
    Serialization,
}

/// Who is to blame for a failure, which decides what becomes of the batch.
#[derive(Clone, Copy, Debug, PartialEq, Eq, Structural, Hash)]
pub enum ErrorClass {
    /// The request was wrong: the task fails and the caller is told.
    User,
    /// A resource ran out: the task fails, and trying again later may succeed.
    Resource,
    /// The engine itself is at fault: the batch is rolled back.
    System,
}

impl Code {
    pub open spec fn spec_class(self) -> ErrorClass {
        match self {
            Code::NoSpaceLeftOnDevice | Code::DatabaseSizeLimitReached | Code::TooManyOpenFiles =>
                ErrorClass::Resource,
            Code::CorruptedTaskQueue | Code::Io | Code::Serialization => ErrorClass::System,
            _ => ErrorClass::User,
        }
    }

    pub fn class(&self) -> (r: ErrorClass)
        ensures
            r == self.spec_class(),
    {
        match self {
            Code::NoSpaceLeftOnDevice | Code::DatabaseSizeLimitReached | Code::TooManyOpenFiles =>
                ErrorClass::Resource,
            Code::CorruptedTaskQueue | Code::Io | Code::Serialization => ErrorClass::System,
            _ => ErrorClass::User,
        }
    }

    /// Only a failure for want of a resource is worth trying again unchanged.
    pub fn is_retryable(&self) -> (r: bool)
        ensures
            r == (self.spec_class() == ErrorClass::Resource),
    {
        match self.class() {
            ErrorClass::Resource => true,
            _ => false,
        }
    }
}

/// The failure that a task records.
#[derive(Debug, PartialEq, Eq)]
pub struct ResponseError {
    pub code: Code,
    pub message: String,
}

impl Clone for ResponseError {
    fn clone(&self) -> (r: Self)
        ensures
            r.code == self.code,
            r.message@ == self.message@,
    {
        ResponseError { code: self.code, message: self.message.clone() }
    }
}

pub open spec fn opt_error_view(o: Option<ResponseError>) -> Option<(Code, Seq<char>)> {
    match o {
        Some(e) => Some((e.code, e.message@)),
        None => None,
    }
}

/// A durable record of a requested change.
#[derive(Debug, PartialEq)]
pub struct Task {
    pub uid: TaskId,
    pub batch_uid: Option<BatchId>,
    /// Nanoseconds since the Unix epoch.
    pub enqueued_at: i128,
    pub started_at: Option<i128>,
    pub finished_at: Option<i128>,
    pub error: Option<ResponseError>,
    pub canceled_by: Option<TaskId>,
    pub details: Option<Details>,
    pub status: Status,
    pub kind: KindWithContent,
}

/// What a [`Task`] stands for.
pub struct TaskView {
    pub uid: TaskId,
    pub batch_uid: Option<BatchId>,
    pub enqueued_at: i128,
    pub started_at: Option<i128>,
    pub finished_at: Option<i128>,
    pub error: Option<(Code, Seq<char>)>,
    pub canceled_by: Option<TaskId>,
    pub details: Option<DetailsView>,
    pub status: Status,
    pub kind: KindView,
}

impl View for Task {
    type V = TaskView;

    open spec fn view(&self) -> TaskView {
        TaskView {
            uid: self.uid,
            batch_uid: self.batch_uid,
            enqueued_at: self.enqueued_at,
            started_at: self.started_at,
            finished_at: self.finished_at,
            error: opt_error_view(self.error),
            canceled_by: self.canceled_by,
            details: opt_details_view(self.details),
            status: self.status,
            kind: self.kind@,
        }
    }
}

/// Why an operation of the queue was refused.
#[derive(Clone, Debug, PartialEq, Eq)]
pub enum Error {
    /// The queue refers to a task or a batch that it does not hold.
    CorruptedTaskQueue,
    /// The new record changes what may never change.
    IllegalTaskUpdate,
    /// No identifier is left to give.
    TaskIdsExhausted,
    /// One index name occurs more than once in the swaps of one task.
    SwapDuplicateIndexFound(String),
    /// Several index names occur more than once in the swaps of one task.
    SwapDuplicateIndexesFound(Vec<String>),
}

pub fn clone_opt_string(o: &Option<String>) -> (r: Option<String>)
    ensures
        opt_string_view(r) == opt_string_view(*o),
{
    match o {
        Some(s) => Some(s.clone()),
        None => None,
    }
}

pub fn clone_strings(v: &Vec<String>) -> (r: Vec<String>)
    ensures
        strings_view(r@) == strings_view(v@),
{
    let mut r: Vec<String> = Vec::new();
    let mut i: usize = 0;
    while i < v.len()
        invariant
            i <= v.len(),
            r.len() == i,
            forall|j: int| 0 <= j < i ==> (#[trigger] r[j])@ == v[j]@,
        decreases v.len() - i,
    {
        r.push(v[i].clone());
        i += 1;
    }
    assert(strings_view(r@) =~= strings_view(v@));
    r
}

pub fn clone_swaps(v: &Vec<IndexSwap>) -> (r: Vec<IndexSwap>)
    ensures
        swaps_view(r@) == swaps_view(v@),
{
    let mut r: Vec<IndexSwap> = Vec::new();
    let mut i: usize = 0;
    while i < v.len()
        invariant
            i <= v.len(),
            r.len() == i,
            forall|j: int| 0 <= j < i ==> (#[trigger] r[j])@ == v[j]@,
        decreases v.len() - i,
    {
        r.push(IndexSwap { indexes: (v[i].indexes.0.clone(), v[i].indexes.1.clone()) });
        i += 1;
    }
    assert(swaps_view(r@) =~= swaps_view(v@));
    r
}

impl KindWithContent {
    pub fn as_kind(&self) -> (r: Kind)
        ensures
            r == self@.as_kind(),
    {
        match self {
            KindWithContent::DocumentAdditionOrUpdate { .. } => Kind::DocumentAdditionOrUpdate,
            KindWithContent::DocumentEdition { .. } => Kind::DocumentEdition,
            KindWithContent::DocumentDeletion { .. } => Kind::DocumentDeletion,
            KindWithContent::DocumentDeletionByFilter { .. } => Kind::DocumentDeletion,
            KindWithContent::DocumentClear { .. } => Kind::DocumentDeletion,
            KindWithContent::SettingsUpdate { .. } => Kind::SettingsUpdate,
            KindWithContent::IndexDeletion { .. } => Kind::IndexDeletion,
            KindWithContent::IndexCreation { .. } => Kind::IndexCreation,
            KindWithContent::IndexUpdate { .. } => Kind::IndexUpdate,
            KindWithContent::IndexSwap { .. } => Kind::IndexSwap,
            KindWithContent::TaskCancelation { .. } => Kind::TaskCancelation,
            KindWithContent::TaskDeletion { .. } => Kind::TaskDeletion,
            KindWithContent::DumpCreation { .. } => Kind::DumpCreation,
            KindWithContent::SnapshotCreation => Kind::SnapshotCreation,
        }
    }

    /// The details that a task of this kind starts out with.
    pub fn default_details(&self) -> (r: Option<Details>)
        ensures
            opt_details_view(r) == self@.default_details(),
    {
        match self {
            KindWithContent::DocumentAdditionOrUpdate { documents_count, .. } => Some(
                Details::DocumentAdditionOrUpdate {
                    received_documents: *documents_count,
                    indexed_documents: None,
                },
            ),
            KindWithContent::DocumentEdition { function, .. } => Some(
                Details::DocumentEdition { edited_documents: None, function: function.clone() },
            ),
            KindWithContent::DocumentDeletion { documents_ids, .. } => {
                assert(strings_view(documents_ids@).len() == documents_ids@.len());
                Some(
                    Details::DocumentDeletion {
                        provided_ids: documents_ids.len() as u64,
                        deleted_documents: None,
                    },
                )
            },
            KindWithContent::DocumentDeletionByFilter { filter_expr, .. } => Some(
                Details::DocumentDeletionByFilter {
                    original_filter: filter_expr.clone(),
                    deleted_documents: None,
                },
            ),
            KindWithContent::DocumentClear { .. } => Some(
                Details::ClearAll { deleted_documents: None },
            ),
            KindWithContent::SettingsUpdate { new_settings, .. } => Some(
                Details::SettingsUpdate { settings: new_settings.clone() },
            ),
            KindWithContent::IndexDeletion { .. } => Some(
                Details::ClearAll { deleted_documents: None },
            ),
            KindWithContent::IndexCreation { primary_key, .. } => Some(
                Details::IndexInfo { primary_key: clone_opt_string(primary_key) },
            ),
            KindWithContent::IndexUpdate { primary_key, .. } => Some(
                Details::IndexInfo { primary_key: clone_opt_string(primary_key) },
            ),
            KindWithContent::IndexSwap { swaps } => Some(
                Details::IndexSwap { swaps: clone_swaps(swaps) },
            ),
            KindWithContent::TaskCancelation { query, tasks } => Some(
                Details::TaskCancelation {
                    matched_tasks: bitmap_len(tasks),
                    canceled_tasks: None,
                    original_filter: query.clone(),
                },
            ),
            KindWithContent::TaskDeletion { query, tasks } => Some(
                Details::TaskDeletion {
                    matched_tasks: bitmap_len(tasks),
                    deleted_tasks: None,
                    original_filter: query.clone(),
                },
            ),
            KindWithContent::DumpCreation { .. } => Some(Details::Dump { dump_uid: None }),
            KindWithContent::SnapshotCreation => None,
        }
    }

    /// The one index that the task works on, if it works on exactly one by name.
    pub fn index_uid(&self) -> (r: Option<&String>)
        ensures
            match r {
                Some(name) => self@.index_uid() == Some(name@),
                None => self@.index_uid() is None,
            },
    {
        match self {
            KindWithContent::DocumentAdditionOrUpdate { index_uid, .. } => Some(index_uid),
            KindWithContent::DocumentEdition { index_uid, .. } => Some(index_uid),
            KindWithContent::DocumentDeletion { index_uid, .. } => Some(index_uid),
            KindWithContent::DocumentDeletionByFilter { index_uid, .. } => Some(index_uid),
            KindWithContent::DocumentClear { index_uid } => Some(index_uid),
            KindWithContent::SettingsUpdate { index_uid, .. } => Some(index_uid),
            KindWithContent::IndexDeletion { index_uid } => Some(index_uid),
            KindWithContent::IndexCreation { index_uid, .. } => Some(index_uid),
            KindWithContent::IndexUpdate { index_uid, .. } => Some(index_uid),
            KindWithContent::IndexSwap { .. } => None,
            KindWithContent::TaskCancelation { .. } => None,
            KindWithContent::TaskDeletion { .. } => None,
            KindWithContent::DumpCreation { .. } => None,
            KindWithContent::SnapshotCreation => None,
        }
    }

    /// Every index name that the task refers to, in the order in which it names them.
    pub fn indexes(&self) -> (r: Vec<&String>)
        ensures
            forall|name: Seq<char>|
                self@.indexes().contains(name) <==> exists|i: int|
                    0 <= i < r.len() && (#[trigger] r[i])@ == name,
    {
        let mut out: Vec<&String> = Vec::new();
        match self {
            KindWithContent::IndexSwap { swaps } => {
                let mut i: usize = 0;
                while i < swaps.len()
                    invariant
                        i <= swaps.len(),
                        out.len() == 2 * i,
                        forall|k: int|
                            0 <= k < out.len() ==> (#[trigger] out[k])@ == (if k % 2 == 0 {
                                swaps[k / 2].indexes.0@
                            } else {
                                swaps[k / 2].indexes.1@
                            }),
                    decreases swaps.len() - i,
                {
                    out.push(&swaps[i].indexes.0);
                    out.push(&swaps[i].indexes.1);
                    i += 1;
                }
                proof {
                    let sv = swaps_view(swaps@);
                    assert forall|name: Seq<char>|
                        self@.indexes().contains(name) <==> exists|i: int|
                            0 <= i < out.len() && (#[trigger] out[i])@ == name by {
                        if self@.indexes().contains(name) {
                            let j = choose|j: int|
                                0 <= j < sv.len() && ((#[trigger] sv[j]).0 == name || sv[j].1
                                    == name);
                            if sv[j].0 == name {
                                assert(out[2 * j]@ == name);
                            } else {
                                assert(out[2 * j + 1]@ == name);
                            }
                        }
                        if exists|i: int| 0 <= i < out.len() && (#[trigger] out[i])@ == name {
                            let i = choose|i: int| 0 <= i < out.len() && (#[trigger] out[i])@ == name;
                            let j = i / 2;
                            assert(sv[j].0 == name || sv[j].1 == name);
                        }
                    }
                }
            },
            _ => {
                match self.index_uid() {
                    Some(name) => {
                        out.push(name);
                        proof {
                            assert(out[0]@ == name@);
                        }
                    },
                    None => {},
                }
            },
        }
        out
    }
}

impl Clone for KindWithContent {
    fn clone(&self) -> (r: Self)
        ensures
            r@ == self@,
    {
        match self {
            KindWithContent::DocumentAdditionOrUpdate {
                index_uid,
                primary_key,
                method,
                content_file,
                documents_count,
                allow_index_creation,
            } => KindWithContent::DocumentAdditionOrUpdate {
                index_uid: index_uid.clone(),
                primary_key: clone_opt_string(primary_key),
                method: *method,
                content_file: *content_file,
                documents_count: *documents_count,
                allow_index_creation: *allow_index_creation,
            },
            KindWithContent::DocumentEdition {
                index_uid,
                filter_expr,
                function,
            } => KindWithContent::DocumentEdition {
                index_uid: index_uid.clone(),
                filter_expr: clone_opt_string(filter_expr),
                function: function.clone(),
            },
            KindWithContent::DocumentDeletion {
                index_uid,
                documents_ids,
            } => KindWithContent::DocumentDeletion {
                index_uid: index_uid.clone(),
                documents_ids: clone_strings(documents_ids),
            },
            KindWithContent::DocumentDeletionByFilter {
                index_uid,
                filter_expr,
            } => KindWithContent::DocumentDeletionByFilter {
                index_uid: index_uid.clone(),
                filter_expr: filter_expr.clone(),
            },
            KindWithContent::DocumentClear { index_uid } => KindWithContent::DocumentClear {
                index_uid: index_uid.clone(),
            },
            KindWithContent::SettingsUpdate {
                index_uid,
                new_settings,
                is_deletion,
                allow_index_creation,
            } => KindWithContent::SettingsUpdate {
                index_uid: index_uid.clone(),
                new_settings: new_settings.clone(),
                is_deletion: *is_deletion,
                allow_index_creation: *allow_index_creation,
            },
            KindWithContent::IndexDeletion { index_uid } => KindWithContent::IndexDeletion {
                index_uid: index_uid.clone(),
            },
            KindWithContent::IndexCreation {
                index_uid,
                primary_key,
            } => KindWithContent::IndexCreation {
                index_uid: index_uid.clone(),
                primary_key: clone_opt_string(primary_key),
            },
            KindWithContent::IndexUpdate { index_uid, primary_key } => KindWithContent::IndexUpdate {
                index_uid: index_uid.clone(),
                primary_key: clone_opt_string(primary_key),
            },
            KindWithContent::IndexSwap { swaps } => KindWithContent::IndexSwap {
                swaps: clone_swaps(swaps),
            },
            KindWithContent::TaskCancelation { query, tasks } => KindWithContent::TaskCancelation {
                query: query.clone(),
                tasks: tasks.clone(),
            },
            KindWithContent::TaskDeletion { query, tasks } => KindWithContent::TaskDeletion {
                query: query.clone(),
                tasks: tasks.clone(),
            },
            KindWithContent::DumpCreation { instance_uid } => KindWithContent::DumpCreation {
                instance_uid: *instance_uid,
            },
            KindWithContent::SnapshotCreation => KindWithContent::SnapshotCreation,
        }
    }
}

impl Clone for Details {
    fn clone(&self) -> (r: Self)
        ensures
            r@ == self@,
    {
        match self {
            Details::DocumentAdditionOrUpdate {
                received_documents,
                indexed_documents,
            } => Details::DocumentAdditionOrUpdate {
                received_documents: *received_documents,
                indexed_documents: *indexed_documents,
            },
            Details::DocumentEdition { edited_documents, function } => Details::DocumentEdition {
                edited_documents: *edited_documents,
                function: function.clone(),
            },
            Details::SettingsUpdate { settings } => Details::SettingsUpdate {
                settings: settings.clone(),
            },
            Details::IndexInfo { primary_key } => Details::IndexInfo {
                primary_key: clone_opt_string(primary_key),
            },
            Details::DocumentDeletion { provided_ids, deleted_documents } => Details::DocumentDeletion {
                provided_ids: *provided_ids,
                deleted_documents: *deleted_documents,
            },
            Details::DocumentDeletionByFilter {
                original_filter,
                deleted_documents,
            } => Details::DocumentDeletionByFilter {
                original_filter: original_filter.clone(),
                deleted_documents: *deleted_documents,
            },
            Details::ClearAll { deleted_documents } => Details::ClearAll {
                deleted_documents: *deleted_documents,
            },
            Details::TaskCancelation {
                matched_tasks,
                canceled_tasks,
                original_filter,
            } => Details::TaskCancelation {
                matched_tasks: *matched_tasks,
                canceled_tasks: *canceled_tasks,
                original_filter: original_filter.clone(),
            },
            Details::TaskDeletion {
                matched_tasks,
                deleted_tasks,
                original_filter,
            } => Details::TaskDeletion {
                matched_tasks: *matched_tasks,
                deleted_tasks: *deleted_tasks,
                original_filter: original_filter.clone(),
            },
            Details::Dump { dump_uid } => Details::Dump { dump_uid: clone_opt_string(dump_uid) },
            Details::IndexSwap { swaps } => Details::IndexSwap { swaps: clone_swaps(swaps) },
        }
    }
}

impl Task {
    /// The one index that the task works on, if it works on exactly one by name.
    pub fn index_uid(&self) -> (r: Option<&String>)
        ensures
            match r {
                Some(name) => self@.kind.index_uid() == Some(name@),
                None => self@.kind.index_uid() is None,
            },
    {
        self.kind.index_uid()
    }

    /// Every index name that the task refers to.
    pub fn indexes(&self) -> (r: Vec<&String>)
        ensures
            forall|name: Seq<char>|
                self@.kind.indexes().contains(name) <==> exists|i: int|
                    0 <= i < r.len() && (#[trigger] r[i])@ == name,
    {
        self.kind.indexes()
    }
}

impl Clone for Task {
    fn clone(&self) -> (r: Self)
        ensures
            r@ == self@,
    {
        Task {
            uid: self.uid,
            batch_uid: self.batch_uid,
            enqueued_at: self.enqueued_at,
            started_at: self.started_at,
            finished_at: self.finished_at,
            error: match &self.error {
                Some(e) => Some(e.clone()),
                None => None,
            },
            canceled_by: self.canceled_by,
            details: match &self.details {
                Some(d) => Some(d.clone()),
                None => None,
            },
            status: self.status,
            kind: self.kind.clone(),
        }
    }
}

} // verus!

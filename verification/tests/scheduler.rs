use index_scheduler::autobatcher::{plan_next_batch, BatchKind, BatchPlan};
use index_scheduler::batches::{BatchDetails, ProcessingBatch, Progress};
use index_scheduler::queue::Query;
use index_scheduler::processor::{
    conclude, is_fatal, rolls_back, tick, Action, BatchOutcome, Event, ProcessorState,
};
use index_scheduler::scheduler::{IndexScheduler, ProcessingTasks};
use index_scheduler::tasks::{
    Code, Details, Error, ErrorClass, IndexDocumentsMethod, IndexSwap, Kind, KindWithContent,
    ResponseError, Status, Task,
};
use roaring::RoaringBitmap;
use uuid::Uuid;

fn addition(index: &str, file: u128) -> KindWithContent {
    KindWithContent::DocumentAdditionOrUpdate {
        index_uid: index.to_string(),
        primary_key: Some("id".to_string()),
        method: IndexDocumentsMethod::ReplaceDocuments,
        content_file: Uuid::from_u128(file),
        documents_count: 2,
        allow_index_creation: true,
    }
}

fn update(index: &str, file: u128, key: Option<&str>) -> KindWithContent {
    KindWithContent::DocumentAdditionOrUpdate {
        index_uid: index.to_string(),
        primary_key: key.map(|k| k.to_string()),
        method: IndexDocumentsMethod::UpdateDocuments,
        content_file: Uuid::from_u128(file),
        documents_count: 1,
        allow_index_creation: true,
    }
}

fn settings(index: &str, what: &str) -> KindWithContent {
    KindWithContent::SettingsUpdate {
        index_uid: index.to_string(),
        new_settings: what.to_string(),
        is_deletion: false,
        allow_index_creation: true,
    }
}

fn clear(index: &str) -> KindWithContent {
    KindWithContent::DocumentClear { index_uid: index.to_string() }
}

fn deletion(index: &str, ids: &[&str]) -> KindWithContent {
    KindWithContent::DocumentDeletion {
        index_uid: index.to_string(),
        documents_ids: ids.iter().map(|s| s.to_string()).collect(),
    }
}

fn swap(pairs: &[(&str, &str)]) -> KindWithContent {
    KindWithContent::IndexSwap {
        swaps: pairs
            .iter()
            .map(|(a, b)| IndexSwap { indexes: (a.to_string(), b.to_string()) })
            .collect(),
    }
}

fn cancel(ids: &[u32]) -> KindWithContent {
    KindWithContent::TaskCancelation {
        query: "uids".to_string(),
        tasks: ids.iter().copied().collect(),
    }
}

fn delete(ids: &[u32]) -> KindWithContent {
    KindWithContent::TaskDeletion { query: "uids".to_string(), tasks: ids.iter().copied().collect() }
}

fn ids(b: &RoaringBitmap) -> Vec<u32> {
    b.iter().collect()
}

fn enqueue_all(kinds: Vec<KindWithContent>) -> IndexScheduler {
    let mut scheduler = IndexScheduler::new();
    let mut now = 100;
    for kind in kinds {
        scheduler.register(kind, now).unwrap();
        now += 10;
    }
    scheduler
}

fn plan(kinds: Vec<KindWithContent>) -> Option<BatchPlan> {
    let scheduler = enqueue_all(kinds);
    plan_next_batch(&scheduler.enqueued_tasks())
}

fn planned(kind: BatchKind, tasks: &[u32]) -> Option<BatchPlan> {
    Some(BatchPlan { kind, tasks: tasks.to_vec() })
}

#[test]
fn batcher_on_empty_queue_returns_no_batch() {
    assert_eq!(plan_next_batch(&vec![]), None);
    let scheduler = IndexScheduler::new();
    assert!(scheduler.enqueued_tasks().is_empty());
    assert!(matches!(scheduler.create_next_batch(5), Ok(None)));
}

#[test]
fn batcher_takes_task_operations_first() {
    assert_eq!(
        plan(vec![settings("x", "a"), cancel(&[0]), delete(&[0]), cancel(&[0, 1])]),
        planned(BatchKind::TaskCancelation, &[1, 3])
    );
    assert_eq!(
        plan(vec![
            settings("x", "a"),
            delete(&[0]),
            KindWithContent::SnapshotCreation,
            delete(&[0])
        ]),
        planned(BatchKind::TaskDeletion, &[1, 3])
    );
    assert_eq!(
        plan(vec![
            settings("x", "a"),
            KindWithContent::SnapshotCreation,
            KindWithContent::DumpCreation { instance_uid: None },
            KindWithContent::SnapshotCreation
        ]),
        planned(BatchKind::SnapshotCreation, &[1, 3])
    );
    assert_eq!(
        plan(vec![
            settings("x", "a"),
            KindWithContent::DumpCreation { instance_uid: None },
            KindWithContent::DumpCreation { instance_uid: None }
        ]),
        planned(BatchKind::DumpCreation, &[1])
    );
}

#[test]
fn batcher_coalesces_settings() {
    assert_eq!(
        plan(vec![
            settings("x", "stop_words=[a]"),
            settings("x", "ranking_rules=[typo]"),
            settings("x", "searchable=[t]")
        ]),
        planned(BatchKind::SettingsUpdate, &[0, 1, 2])
    );
    // settings of another index do not break the run, other tasks of the index do
    assert_eq!(
        plan(vec![
            settings("x", "a"),
            settings("y", "b"),
            settings("x", "c"),
            addition("x", 1),
            settings("x", "d")
        ]),
        planned(BatchKind::SettingsUpdate, &[0, 2])
    );
}

#[test]
fn batcher_lets_a_clear_absorb_the_additions() {
    assert_eq!(plan(vec![addition("y", 1), clear("y")]), planned(BatchKind::DocumentClear, &[0, 1]));
    assert_eq!(
        plan(vec![
            addition("y", 1),
            deletion("y", &["1"]),
            clear("y"),
            addition("y", 2),
            clear("y"),
            addition("y", 3)
        ]),
        planned(BatchKind::DocumentClear, &[0, 1, 2, 3, 4])
    );
    // a clear behind a settings update is not reached
    assert_eq!(
        plan(vec![addition("y", 1), settings("y", "a"), clear("y")]),
        planned(BatchKind::DocumentAddition, &[0])
    );
    assert_eq!(plan(vec![clear("y"), addition("y", 1)]), planned(BatchKind::DocumentClear, &[0]));
}

#[test]
fn batcher_groups_like_additions_and_deletions() {
    assert_eq!(
        plan(vec![addition("y", 1), addition("y", 2), addition("z", 3), addition("y", 4)]),
        planned(BatchKind::DocumentAddition, &[0, 1, 3])
    );
    assert_eq!(
        plan(vec![addition("y", 1), update("y", 2, Some("id")), addition("y", 3)]),
        planned(BatchKind::DocumentAddition, &[0])
    );
    assert_eq!(
        plan(vec![update("y", 1, None), update("y", 2, None), update("y", 3, Some("id"))]),
        planned(BatchKind::DocumentAddition, &[0, 1])
    );
    assert_eq!(
        plan(vec![
            deletion("y", &["1"]),
            KindWithContent::DocumentDeletionByFilter {
                index_uid: "y".to_string(),
                filter_expr: "a = 1".to_string()
            },
            addition("y", 1),
            deletion("y", &["2"])
        ]),
        planned(BatchKind::DocumentDeletion, &[0, 1])
    );
}

#[test]
fn batcher_handles_index_operations() {
    assert_eq!(
        plan(vec![
            addition("y", 1),
            settings("y", "a"),
            KindWithContent::IndexDeletion { index_uid: "y".to_string() },
            addition("y", 2)
        ]),
        planned(BatchKind::IndexDeletion, &[0, 1, 2])
    );
    assert_eq!(
        plan(vec![
            KindWithContent::IndexCreation { index_uid: "y".to_string(), primary_key: None },
            KindWithContent::IndexUpdate { index_uid: "y".to_string(), primary_key: None }
        ]),
        planned(BatchKind::IndexOperation, &[0])
    );
    assert_eq!(
        plan(vec![
            KindWithContent::DocumentEdition {
                index_uid: "y".to_string(),
                filter_expr: None,
                function: "f".to_string()
            },
            addition("y", 1)
        ]),
        planned(BatchKind::IndexOperation, &[0])
    );
    assert_eq!(
        plan(vec![swap(&[("a", "b")]), addition("a", 1), swap(&[("c", "d")])]),
        planned(BatchKind::IndexSwap, &[0, 2])
    );
    assert_eq!(
        plan(vec![swap(&[("a", "b")]), swap(&[("c", "a")]), swap(&[("e", "f")])]),
        planned(BatchKind::IndexSwap, &[0])
    );
    // the oldest task decides which index is served
    assert_eq!(
        plan(vec![settings("x", "a"), addition("y", 1), settings("x", "b")]),
        planned(BatchKind::SettingsUpdate, &[0, 2])
    );
}

#[test]
fn enqueue_and_process_an_addition() {
    let mut scheduler = IndexScheduler::new();
    scheduler.register(addition("books", 1), 100).unwrap();
    let next = scheduler.create_next_batch(200).unwrap().unwrap();
    assert_eq!(next.plan, BatchPlan { kind: BatchKind::DocumentAddition, tasks: vec![0] });
    assert_eq!(ids(&next.tasks), vec![0]);
    let mut batch = next.batch;
    assert_eq!(batch.uid, 0);
    assert_eq!(batch.started_at, 200);

    let mut tasks = scheduler.start_batch(&mut batch, &next.plan.tasks).unwrap();
    assert_eq!(tasks.len(), 1);
    assert_eq!(tasks[0].status, Status::Processing);
    assert_eq!(tasks[0].batch_uid, Some(0));
    let stored = scheduler.queue.get_task(0).unwrap();
    assert_eq!(stored.status, Status::Processing);
    assert_eq!(stored.batch_uid, Some(0));
    assert_eq!(batch.stats.total_nb_tasks, 1);
    assert_eq!(scheduler.assert_internally_consistent(&vec![Uuid::from_u128(1)]), Ok(()));

    tasks[0].details =
        Some(Details::DocumentAdditionOrUpdate { received_documents: 2, indexed_documents: Some(2) });
    conclude(&mut tasks, &BatchOutcome::Succeeded);
    let (done, files) = scheduler.finish_batch(batch, tasks, 300).unwrap();
    assert_eq!(files, vec![Uuid::from_u128(1)]);
    assert_eq!(done[0].status, Status::Succeeded);
    assert_eq!(done[0].started_at, Some(200));
    assert_eq!(done[0].finished_at, Some(300));

    let stored = scheduler.queue.get_task(0).unwrap();
    assert_eq!(stored.status, Status::Succeeded);
    assert_eq!(stored.batch_uid, Some(0));
    assert_eq!(*stored, done[0]);
    let record = scheduler.batches.get_batch(0).unwrap();
    assert_eq!(record.uid, 0);
    assert_eq!(record.stats.total_nb_tasks, 1);
    assert_eq!(record.stats.status.get(&Status::Succeeded), 1);
    assert_eq!(record.stats.status.get(&Status::Processing), 0);
    assert_eq!(record.stats.types.get(&Kind::DocumentAdditionOrUpdate), 1);
    assert_eq!(record.stats.index_uids.get(&"books".to_string()), 1);
    assert_eq!(record.started_at, 200);
    assert_eq!(record.finished_at, Some(300));
    assert_eq!(record.details.received_documents, Some(2));
    assert_eq!(record.details.indexed_documents, Some(2));
    assert_eq!(ids(&scheduler.queue.tasks_in_batch(0)), vec![0]);
    assert_eq!(ids(&scheduler.batches.get_batch_status(Status::Succeeded)), vec![0]);
    assert_eq!(ids(&scheduler.batches.get_batch_kind(Kind::DocumentAdditionOrUpdate)), vec![0]);
    assert_eq!(ids(&scheduler.batches.index_batches(&"books".to_string())), vec![0]);
    assert_eq!(ids(&scheduler.batches.all_batch_ids()), vec![0]);
    assert_eq!(scheduler.batches.next_batch_id(), Ok(1));
    assert_eq!(scheduler.assert_internally_consistent(&vec![]), Ok(()));
    assert!(matches!(scheduler.create_next_batch(400), Ok(None)));
}

#[test]
fn coalesced_settings_end_in_one_batch() {
    let mut scheduler = enqueue_all(vec![
        settings("x", "stop_words=[a]"),
        settings("x", "ranking_rules=[typo]"),
        settings("x", "searchable=[t]"),
    ]);
    let next = scheduler.create_next_batch(200).unwrap().unwrap();
    assert_eq!(ids(&next.tasks), vec![0, 1, 2]);
    let mut batch = next.batch;
    let mut tasks = scheduler.start_batch(&mut batch, &next.plan.tasks).unwrap();
    conclude(&mut tasks, &BatchOutcome::Succeeded);
    let (done, files) = scheduler.finish_batch(batch, tasks, 300).unwrap();
    assert!(files.is_empty());
    assert_eq!(done.len(), 3);
    for uid in 0..3 {
        let task = scheduler.queue.get_task(uid).unwrap();
        assert_eq!(task.status, Status::Succeeded);
        assert_eq!(task.batch_uid, Some(0));
    }
    assert_eq!(scheduler.batches.get_batch(0).unwrap().stats.total_nb_tasks, 3);
    assert_eq!(ids(&scheduler.batches.all_batch_ids()), vec![0]);
}

#[test]
fn a_clear_and_the_addition_it_absorbs_succeed_together() {
    let mut scheduler = enqueue_all(vec![addition("y", 7), clear("y")]);
    let next = scheduler.create_next_batch(200).unwrap().unwrap();
    assert_eq!(next.plan.kind, BatchKind::DocumentClear);
    let mut batch = next.batch;
    let mut tasks = scheduler.start_batch(&mut batch, &next.plan.tasks).unwrap();
    conclude(&mut tasks, &BatchOutcome::Succeeded);
    let (_, files) = scheduler.finish_batch(batch, tasks, 300).unwrap();
    assert_eq!(files, vec![Uuid::from_u128(7)]);
    assert_eq!(scheduler.queue.get_task(0).unwrap().status, Status::Succeeded);
    assert_eq!(scheduler.queue.get_task(1).unwrap().status, Status::Succeeded);
    assert_eq!(ids(&scheduler.queue.tasks_in_batch(0)), vec![0, 1]);
}

#[test]
fn cancellation_of_a_queued_task() {
    let mut scheduler = enqueue_all(vec![settings("z", "long"), cancel(&[0])]);
    let next = scheduler.create_next_batch(200).unwrap().unwrap();
    assert_eq!(next.plan, BatchPlan { kind: BatchKind::TaskCancelation, tasks: vec![1] });
    let mut batch = next.batch;
    let mut tasks = scheduler.start_batch(&mut batch, &next.plan.tasks).unwrap();
    assert_eq!(scheduler.queue.get_task(0).unwrap().status, Status::Enqueued);
    let canceled = scheduler.process_task_cancelation(1, 250).unwrap();
    assert_eq!(canceled, 1);
    let victim = scheduler.queue.get_task(0).unwrap();
    assert_eq!(victim.status, Status::Canceled);
    assert_eq!(victim.canceled_by, Some(1));
    assert_eq!(victim.finished_at, Some(250));
    assert_eq!(victim.started_at, None);
    assert_eq!(victim.error, None);
    tasks[0].details = Some(Details::TaskCancelation {
        matched_tasks: 1,
        canceled_tasks: Some(canceled),
        original_filter: "uids".to_string(),
    });
    conclude(&mut tasks, &BatchOutcome::Succeeded);
    scheduler.finish_batch(batch, tasks, 300).unwrap();
    let canceler = scheduler.queue.get_task(1).unwrap();
    assert_eq!(canceler.status, Status::Succeeded);
    assert_eq!(
        canceler.details,
        Some(Details::TaskCancelation {
            matched_tasks: 1,
            canceled_tasks: Some(1),
            original_filter: "uids".to_string()
        })
    );
    assert_eq!(ids(&scheduler.queue.canceled_by(1)), vec![0]);
    assert_eq!(scheduler.assert_internally_consistent(&vec![]), Ok(()));
    assert!(matches!(scheduler.create_next_batch(400), Ok(None)));
}

#[test]
fn cancellation_is_not_retroactive() {
    let mut scheduler = enqueue_all(vec![settings("z", "a"), settings("w", "b")]);
    let mut done = scheduler.queue.get_task(0).unwrap().clone();
    done.status = Status::Succeeded;
    done.finished_at = Some(150);
    scheduler.queue.update_task(&done).unwrap();
    scheduler.register(cancel(&[0, 1, 9]), 160).unwrap();
    assert_eq!(scheduler.process_task_cancelation(2, 170), Ok(1));
    assert_eq!(*scheduler.queue.get_task(0).unwrap(), done);
    assert_eq!(scheduler.queue.get_task(1).unwrap().status, Status::Canceled);
    assert_eq!(scheduler.process_task_cancelation(2, 180), Ok(0));
    assert_eq!(scheduler.queue.get_task(1).unwrap().finished_at, Some(170));
    assert_eq!(scheduler.process_task_cancelation(1, 180), Err(Error::CorruptedTaskQueue));
    assert_eq!(scheduler.process_task_cancelation(7, 180), Err(Error::CorruptedTaskQueue));
}

#[test]
fn crash_recovery_puts_processing_tasks_back() {
    let mut scheduler = enqueue_all(vec![addition("books", 1), addition("books", 2)]);
    let next = scheduler.create_next_batch(200).unwrap().unwrap();
    let mut batch = next.batch;
    scheduler.start_batch(&mut batch, &next.plan.tasks).unwrap();
    assert_eq!(ids(&scheduler.queue.get_status(Status::Processing)), vec![0, 1]);
    // the process dies here; on restart:
    assert_eq!(scheduler.recover(), 2);
    assert_eq!(ids(&scheduler.queue.get_status(Status::Processing)), Vec::<u32>::new());
    assert_eq!(ids(&scheduler.queue.get_status(Status::Enqueued)), vec![0, 1]);
    for uid in 0..2 {
        let task = scheduler.queue.get_task(uid).unwrap();
        assert_eq!(task.status, Status::Enqueued);
        assert_eq!(task.batch_uid, None);
        assert_eq!(task.started_at, None);
    }
    assert_eq!(ids(&scheduler.queue.tasks_in_batch(0)), Vec::<u32>::new());
    assert_eq!(scheduler.recover(), 0);

    // the work is done again and ends as it would have
    let next = scheduler.create_next_batch(500).unwrap().unwrap();
    assert_eq!(next.batch.uid, 0);
    assert_eq!(ids(&next.tasks), vec![0, 1]);
    let mut batch = next.batch;
    let mut tasks = scheduler.start_batch(&mut batch, &next.plan.tasks).unwrap();
    conclude(&mut tasks, &BatchOutcome::Succeeded);
    let (_, files) = scheduler.finish_batch(batch, tasks, 600).unwrap();
    assert_eq!(files, vec![Uuid::from_u128(1), Uuid::from_u128(2)]);
    assert_eq!(ids(&scheduler.queue.get_status(Status::Succeeded)), vec![0, 1]);
    assert_eq!(scheduler.queue.get_task(0).unwrap().batch_uid, Some(0));
}

#[test]
fn a_failed_batch_fails_every_task_with_the_same_error() {
    let mut scheduler = enqueue_all(vec![addition("books", 1), addition("books", 2)]);
    let next = scheduler.create_next_batch(200).unwrap().unwrap();
    let mut batch = next.batch;
    let mut tasks = scheduler.start_batch(&mut batch, &next.plan.tasks).unwrap();
    let error = ResponseError { code: Code::MalformedPayload, message: "bad json".to_string() };
    conclude(&mut tasks, &BatchOutcome::Failed(error.clone()));
    for task in tasks.iter_mut() {
        task.details = Some(Details::DocumentAdditionOrUpdate {
            received_documents: 2,
            indexed_documents: Some(0),
        });
    }
    let (done, files) = scheduler.finish_batch(batch, tasks, 300).unwrap();
    assert_eq!(files.len(), 2);
    for task in &done {
        assert_eq!(task.status, Status::Failed);
        assert_eq!(task.error, Some(error.clone()));
    }
    let record = scheduler.batches.get_batch(0).unwrap();
    assert_eq!(record.stats.status.get(&Status::Failed), 2);
    assert_eq!(ids(&scheduler.batches.get_batch_status(Status::Failed)), vec![0]);
    assert_eq!(scheduler.assert_internally_consistent(&vec![]), Ok(()));
}

#[test]
fn a_stopped_batch_cancels_its_tasks_without_error() {
    let mut tasks = vec![Task {
        uid: 3,
        batch_uid: Some(1),
        enqueued_at: 1,
        started_at: None,
        finished_at: None,
        error: Some(ResponseError { code: Code::Io, message: "old".to_string() }),
        canceled_by: None,
        details: None,
        status: Status::Processing,
        kind: settings("x", "a"),
    }];
    conclude(&mut tasks, &BatchOutcome::Canceled { by: 8 });
    assert_eq!(tasks[0].status, Status::Canceled);
    assert_eq!(tasks[0].canceled_by, Some(8));
    assert_eq!(tasks[0].error, None);
    assert_eq!(tasks[0].uid, 3);
}

#[test]
fn start_batch_is_all_or_nothing() {
    let mut scheduler = enqueue_all(vec![settings("x", "a"), settings("x", "b")]);
    let mut done = scheduler.queue.get_task(1).unwrap().clone();
    done.status = Status::Failed;
    scheduler.queue.update_task(&done).unwrap();
    let mut batch = ProcessingBatch::new_at(0, 10);
    assert_eq!(scheduler.start_batch(&mut batch, &vec![0, 1]), Err(Error::IllegalTaskUpdate));
    assert_eq!(scheduler.queue.get_task(0).unwrap().status, Status::Enqueued);
    assert_eq!(batch.stats.total_nb_tasks, 0);
    assert_eq!(scheduler.start_batch(&mut batch, &vec![0, 5]), Err(Error::CorruptedTaskQueue));
    assert_eq!(scheduler.start_batch(&mut batch, &vec![0, 0]), Err(Error::CorruptedTaskQueue));
    assert!(scheduler.start_batch(&mut batch, &vec![0]).is_ok());
}

#[test]
fn finish_batch_is_all_or_nothing() {
    let mut scheduler = enqueue_all(vec![settings("x", "a"), settings("x", "b")]);
    let mut batch = ProcessingBatch::new_at(0, 10);
    let mut tasks = scheduler.start_batch(&mut batch, &vec![0, 1]).unwrap();
    conclude(&mut tasks, &BatchOutcome::Succeeded);
    // a task that the batch claimed is missing
    let wrong = ProcessingBatch::new_at(0, 10);
    assert_eq!(
        scheduler.finish_batch(wrong, vec![tasks[0].clone()], 20),
        Err(Error::CorruptedTaskQueue)
    );
    // the identifier is not the next one
    let wrong = ProcessingBatch::new_at(3, 10);
    assert_eq!(scheduler.finish_batch(wrong, tasks.clone(), 20), Err(Error::CorruptedTaskQueue));
    assert_eq!(ids(&scheduler.queue.get_status(Status::Processing)), vec![0, 1]);
    assert!(scheduler.batches.get_batch(0).is_none());
    assert!(scheduler.finish_batch(batch, tasks, 20).is_ok());
    assert_eq!(ids(&scheduler.queue.get_status(Status::Succeeded)), vec![0, 1]);
}

#[test]
fn write_batch_checks_what_it_is_given() {
    let mut scheduler = enqueue_all(vec![settings("x", "a")]);
    let mut batch = ProcessingBatch::new_at(0, 10);
    let mut tasks = scheduler.start_batch(&mut batch, &vec![0]).unwrap();
    let claimed: RoaringBitmap = [0u32].into_iter().collect();
    let open = ProcessingBatch::new_at(0, 10);
    assert_eq!(scheduler.write_batch(open, &claimed), Err(Error::CorruptedTaskQueue));
    batch.finished_at(20);
    batch.update_all(&mut tasks);
    let mut other = ProcessingBatch::new_at(1, 10);
    other.finished_at(20);
    assert_eq!(scheduler.write_batch(other, &claimed), Err(Error::CorruptedTaskQueue));
    let mut same = ProcessingBatch::new_at(0, 10);
    same.finished_at(20);
    assert_eq!(scheduler.write_batch(same, &RoaringBitmap::new()), Err(Error::CorruptedTaskQueue));
    assert_eq!(scheduler.write_batch(batch, &claimed), Ok(()));
    let record = scheduler.batches.get_batch(0).unwrap();
    assert_eq!(record.finished_at, Some(20));
    assert_eq!(record.stats.total_nb_tasks, 1);
}

#[test]
fn deleting_tasks_takes_finished_ones_only() {
    let mut scheduler = enqueue_all(vec![settings("x", "a"), settings("x", "b"), settings("x", "c")]);
    let mut done = scheduler.queue.get_task(0).unwrap().clone();
    done.status = Status::Succeeded;
    scheduler.queue.update_task(&done).unwrap();
    scheduler.register(delete(&[0, 1, 17]), 500).unwrap();
    assert_eq!(scheduler.process_task_deletion(3), Ok(1));
    assert!(scheduler.queue.get_task(0).is_none());
    assert!(scheduler.queue.get_task(1).is_some());
    assert_eq!(ids(&scheduler.queue.all_task_ids()), vec![1, 2, 3]);
    assert_eq!(ids(&scheduler.queue.get_status(Status::Succeeded)), Vec::<u32>::new());
    assert_eq!(scheduler.process_task_deletion(3), Ok(0));
    assert_eq!(scheduler.process_task_deletion(1), Err(Error::CorruptedTaskQueue));
    assert_eq!(scheduler.process_task_deletion(0), Err(Error::CorruptedTaskQueue));
    assert_eq!(scheduler.queue.next_task_id(), Ok(4));
}

#[test]
fn existing_tasks_for_a_processing_batch() {
    let scheduler = enqueue_all(vec![addition("books", 1), settings("movies", "a")]);
    let mut batch = ProcessingBatch::new_at(4, 10);
    let tasks = scheduler.get_existing_tasks_for_processing_batch(&mut batch, &vec![0, 1]).unwrap();
    assert_eq!(tasks[0].batch_uid, Some(4));
    assert_eq!(tasks[1].batch_uid, Some(4));
    assert_eq!(batch.stats.total_nb_tasks, 2);
    assert_eq!(batch.stats.status.get(&Status::Processing), 2);
    assert!(batch.kinds.contains(&Kind::SettingsUpdate));
    assert!(batch.indexes.contains(&"books".to_string()));
    assert!(batch.indexes.contains(&"movies".to_string()));
    assert_eq!(batch.oldest_enqueued_at, Some(100));
    assert_eq!(batch.earliest_enqueued_at, Some(110));
    assert_eq!(scheduler.queue.get_task(0).unwrap().batch_uid, None);
    let mut untouched = ProcessingBatch::new_at(4, 10);
    assert_eq!(
        scheduler.get_existing_tasks_for_processing_batch(&mut untouched, &vec![0, 9]),
        Err(Error::CorruptedTaskQueue)
    );
    assert_eq!(untouched.stats.total_nb_tasks, 0);
}

#[test]
fn existing_batches_join_the_batch_in_progress() {
    let mut scheduler = enqueue_all(vec![settings("x", "a"), settings("y", "b")]);
    let mut batch = ProcessingBatch::new_at(0, 10);
    let mut tasks = scheduler.start_batch(&mut batch, &vec![0]).unwrap();
    conclude(&mut tasks, &BatchOutcome::Succeeded);
    scheduler.finish_batch(batch, tasks, 20).unwrap();
    let mut running = ProcessingBatch::new_at(1, 30);
    scheduler.start_batch(&mut running, &vec![1]).unwrap();
    let processing = ProcessingTasks {
        batch: Some(running),
        progress: Some(Progress { step: "indexing".to_string(), finished_tasks: 0, total_tasks: 1 }),
    };
    let found = scheduler.get_existing_batches(&processing, &vec![1, 0]).unwrap();
    assert_eq!(found.len(), 2);
    assert_eq!(found[0].uid, 1);
    assert_eq!(found[0].started_at, 30);
    assert_eq!(found[0].finished_at, None);
    assert_eq!(found[0].stats.total_nb_tasks, 1);
    let progress = found[0].progress.as_ref().unwrap();
    assert_eq!(progress.step, "indexing");
    assert_eq!(progress.total_tasks, 1);
    assert_eq!(found[1].uid, 0);
    assert!(found[1].progress.is_none());
    assert_eq!(found[1].finished_at, Some(20));
    assert!(scheduler.get_existing_batches(&processing, &vec![2]).is_err());
    let idle = ProcessingTasks { batch: None, progress: None };
    assert!(scheduler.get_existing_batches(&idle, &vec![1]).is_err());
    assert_eq!(scheduler.get_existing_batches(&idle, &vec![0]).unwrap().len(), 1);
}

#[test]
fn processing_batch_keeps_count() {
    let mut batch = ProcessingBatch::new(7);
    assert_eq!(batch.uid, 7);
    assert!(batch.started_at > 1_600_000_000_000_000_000);
    assert!(batch.statuses.contains(&Status::Processing));
    assert_eq!(batch.finished_at, None);
    assert_eq!(batch.details, BatchDetails::empty());
    let mut tasks = vec![
        Task {
            uid: 0,
            batch_uid: None,
            enqueued_at: 50,
            started_at: None,
            finished_at: None,
            error: None,
            canceled_by: Some(9),
            details: Some(Details::DocumentAdditionOrUpdate {
                received_documents: 5,
                indexed_documents: Some(4),
            }),
            status: Status::Enqueued,
            kind: addition("books", 1),
        },
        Task {
            uid: 1,
            batch_uid: None,
            enqueued_at: 40,
            started_at: None,
            finished_at: None,
            error: None,
            canceled_by: None,
            details: Some(Details::DocumentAdditionOrUpdate {
                received_documents: 7,
                indexed_documents: None,
            }),
            status: Status::Enqueued,
            kind: addition("books", 2),
        },
    ];
    batch.processing(&mut tasks);
    assert_eq!(tasks[0].batch_uid, Some(7));
    assert_eq!(batch.stats.total_nb_tasks, 2);
    assert_eq!(batch.stats.status.get(&Status::Processing), 2);
    assert_eq!(batch.stats.types.get(&Kind::DocumentAdditionOrUpdate), 2);
    assert_eq!(batch.stats.index_uids.get(&"books".to_string()), 2);
    assert_eq!(batch.details.received_documents, Some(12));
    assert_eq!(batch.details.indexed_documents, Some(4));
    assert_eq!(batch.details.deleted_documents, None);
    assert!(batch.canceled_by.contains(&9));
    assert_eq!(batch.canceled_by.len(), 1);
    assert_eq!(batch.oldest_enqueued_at, Some(40));
    assert_eq!(batch.earliest_enqueued_at, Some(50));

    batch.finished();
    assert!(batch.finished_at.unwrap() >= batch.started_at);
    assert_eq!(batch.stats.total_nb_tasks, 0);
    assert_eq!(batch.details, BatchDetails::empty());
    assert_eq!(batch.statuses.len(), 0);
    assert!(batch.kinds.contains(&Kind::DocumentAdditionOrUpdate));

    tasks[0].status = Status::Succeeded;
    tasks[1].status = Status::Failed;
    batch.update(&mut tasks[0]);
    batch.update(&mut tasks[1]);
    assert_eq!(tasks[0].started_at, Some(batch.started_at));
    assert_eq!(tasks[0].finished_at, batch.finished_at);
    assert!(batch.statuses.contains(&Status::Succeeded));
    assert!(batch.statuses.contains(&Status::Failed));
    assert_eq!(batch.stats.total_nb_tasks, 2);
    assert_eq!(batch.stats.status.get(&Status::Succeeded), 1);
    let record = batch.to_batch();
    assert_eq!(record.uid, 7);
    assert_eq!(record.stats.total_nb_tasks, 2);
    assert_eq!(record.details.received_documents, Some(12));
    assert!(record.progress.is_none());
}

#[test]
fn processor_goes_round() {
    let mut state = ProcessorState::Waiting;
    let mut actions = Vec::new();
    for event in [
        Event::Wake,
        Event::BatchPlanned,
        Event::TasksClaimed,
        Event::BatchProcessed,
        Event::OutcomeRecorded,
        Event::NoBatch,
    ] {
        let (next, action) = tick(state, event);
        state = next;
        actions.push(action);
    }
    assert_eq!(
        actions,
        vec![
            Action::PlanBatch,
            Action::ClaimTasks,
            Action::ProcessBatch,
            Action::RecordSuccess,
            Action::PlanBatch,
            Action::Sleep
        ]
    );
    assert_eq!(state, ProcessorState::Waiting);
}

#[test]
fn processor_stops_a_batch_on_request() {
    let processing = ProcessorState::Processing { stopping: false };
    assert_eq!(
        tick(processing, Event::CancelRequested),
        (ProcessorState::Processing { stopping: true }, Action::RaiseStopFlag)
    );
    let stopping = ProcessorState::Processing { stopping: true };
    assert_eq!(tick(stopping, Event::CancelRequested), (stopping, Action::Continue));
    assert_eq!(
        tick(stopping, Event::BatchStopped),
        (ProcessorState::Recording, Action::RecordCancelation)
    );
    assert_eq!(tick(processing, Event::BatchStopped), (processing, Action::Continue));
    assert_eq!(
        tick(stopping, Event::BatchProcessed),
        (ProcessorState::Recording, Action::RecordSuccess)
    );
    assert_eq!(
        tick(processing, Event::BatchFailed),
        (ProcessorState::Recording, Action::RecordFailure)
    );
    assert_eq!(tick(ProcessorState::Waiting, Event::CancelRequested).1, Action::Continue);
    assert_eq!(
        tick(ProcessorState::Waiting, Event::Timeout),
        (ProcessorState::Planning, Action::PlanBatch)
    );
    assert_eq!(
        tick(ProcessorState::Claiming, Event::ClaimFailed),
        (ProcessorState::Waiting, Action::Sleep)
    );
    assert_eq!(
        tick(ProcessorState::Recording, Event::RecordFailed),
        (ProcessorState::Waiting, Action::Sleep)
    );
}

#[test]
fn failures_are_classified() {
    assert_eq!(Code::IndexNotFound.class(), ErrorClass::User);
    assert_eq!(Code::DuplicateIndexInSwap.class(), ErrorClass::User);
    assert_eq!(Code::ImmutableField.class(), ErrorClass::User);
    assert_eq!(Code::NoSpaceLeftOnDevice.class(), ErrorClass::Resource);
    assert_eq!(Code::TooManyOpenFiles.class(), ErrorClass::Resource);
    assert_eq!(Code::DatabaseSizeLimitReached.class(), ErrorClass::Resource);
    assert_eq!(Code::CorruptedTaskQueue.class(), ErrorClass::System);
    assert_eq!(Code::Io.class(), ErrorClass::System);
    assert_eq!(Code::Serialization.class(), ErrorClass::System);
    assert!(Code::TooManyOpenFiles.is_retryable());
    assert!(!Code::MalformedPayload.is_retryable());
    assert!(!Code::Io.is_retryable());
    assert!(is_fatal(Code::CorruptedTaskQueue, true));
    assert!(!is_fatal(Code::CorruptedTaskQueue, false));
    assert!(!is_fatal(Code::Io, true));
    assert!(rolls_back(Code::Io));
    assert!(!rolls_back(Code::MalformedPayload));
    assert!(!rolls_back(Code::NoSpaceLeftOnDevice));
    assert!(Status::Canceled.terminal());
    assert!(Status::Failed.terminal());
    assert!(Status::Succeeded.terminal());
    assert!(!Status::Enqueued.terminal());
    assert!(!Status::Processing.terminal());
}

#[test]
fn the_oldest_cancellation_of_a_batch_is_found() {
    let mut scheduler = enqueue_all(vec![settings("x", "a"), settings("y", "b"), settings("z", "c")]);
    assert_eq!(scheduler.canceler_of(&vec![0, 1, 2]), None);
    scheduler.register(cancel(&[2]), 500).unwrap();
    scheduler.register(cancel(&[0, 2]), 510).unwrap();
    assert_eq!(scheduler.canceler_of(&vec![0, 1]), Some(4));
    assert_eq!(scheduler.canceler_of(&vec![1, 2]), Some(3));
    assert_eq!(scheduler.canceler_of(&vec![1]), None);
    assert_eq!(scheduler.canceler_of(&vec![]), None);
    // a cancellation that is no longer enqueued does not count
    let mut done = scheduler.queue.get_task(3).unwrap().clone();
    done.status = Status::Succeeded;
    scheduler.queue.update_task(&done).unwrap();
    assert_eq!(scheduler.canceler_of(&vec![1, 2]), Some(4));
}

#[test]
fn canceling_and_deleting_by_query() {
    let mut scheduler = enqueue_all(vec![settings("x", "a"), addition("y", 1), settings("y", "b")]);
    let mut on_y = Query::any();
    on_y.index_uids = Some(vec!["y".to_string()]);
    let task = scheduler.cancel_tasks(&on_y, "indexUids=y".to_string(), 900).unwrap();
    assert_eq!(task.uid, 3);
    assert_eq!(task.status, Status::Enqueued);
    assert_eq!(task.enqueued_at, 900);
    match &task.kind {
        KindWithContent::TaskCancelation { query, tasks } => {
            assert_eq!(query, "indexUids=y");
            assert_eq!(ids(tasks), vec![1, 2]);
        }
        _ => unreachable!(),
    }
    assert_eq!(
        task.details,
        Some(Details::TaskCancelation {
            matched_tasks: 2,
            canceled_tasks: None,
            original_filter: "indexUids=y".to_string()
        })
    );
    assert_eq!(*scheduler.queue.get_task(3).unwrap(), task);
    assert_eq!(scheduler.process_task_cancelation(3, 950), Ok(2));

    let mut canceled = Query::any();
    canceled.statuses = Some(vec![Status::Canceled]);
    let task = scheduler.delete_tasks(&canceled, "statuses=canceled".to_string(), 1_000).unwrap();
    assert_eq!(task.uid, 4);
    match &task.kind {
        KindWithContent::TaskDeletion { query, tasks } => {
            assert_eq!(query, "statuses=canceled");
            assert_eq!(ids(tasks), vec![1, 2]);
        }
        _ => unreachable!(),
    }
    assert_eq!(scheduler.process_task_deletion(4), Ok(2));
    assert_eq!(ids(&scheduler.queue.all_task_ids()), vec![0, 3, 4]);
    let nothing = scheduler.cancel_tasks(&canceled, "statuses=canceled".to_string(), 1_100).unwrap();
    match &nothing.kind {
        KindWithContent::TaskCancelation { tasks, .. } => assert!(tasks.is_empty()),
        _ => unreachable!(),
    }
}

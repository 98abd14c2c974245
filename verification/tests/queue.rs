use index_scheduler::queue::{Query, TaskQueue};
use index_scheduler::tasks::{
    Details, Error, IndexDocumentsMethod, IndexSwap, Kind, KindWithContent, Status, Task,
};
use index_scheduler::utils::{
    check_index_swap_validity, clamp_to_page, clamp_to_page_size, dichotomic_search,
    filter_out_references_to_newer_tasks, map_bound, round_down_to_multiple,
    swap_index_uid_in_task, Bound,
};
use roaring::RoaringBitmap;
use uuid::Uuid;

fn addition(index: &str, file: u128) -> KindWithContent {
    KindWithContent::DocumentAdditionOrUpdate {
        index_uid: index.to_string(),
        primary_key: Some("id".to_string()),
        method: IndexDocumentsMethod::ReplaceDocuments,
        content_file: Uuid::from_u128(file),
        documents_count: 2,
        allow_index_creation: true,
    }
}

fn settings(index: &str, what: &str) -> KindWithContent {
    KindWithContent::SettingsUpdate {
        index_uid: index.to_string(),
        new_settings: what.to_string(),
        is_deletion: false,
        allow_index_creation: true,
    }
}

fn swap(pairs: &[(&str, &str)]) -> KindWithContent {
    KindWithContent::IndexSwap {
        swaps: pairs
            .iter()
            .map(|(a, b)| IndexSwap { indexes: (a.to_string(), b.to_string()) })
            .collect(),
    }
}

fn bitmap(ids: &[u32]) -> RoaringBitmap {
    ids.iter().copied().collect()
}

fn ids(b: &RoaringBitmap) -> Vec<u32> {
    b.iter().collect()
}

#[test]
fn enqueue_into_empty_store_assigns_uid_zero() {
    let mut queue = TaskQueue::new();
    assert_eq!(queue.next_task_id(), Ok(0));
    assert_eq!(queue.last_task_id(), Ok(None));
    let task = queue.register(addition("books", 1), 1_000).unwrap();
    assert_eq!(task.uid, 0);
    assert_eq!(task.status, Status::Enqueued);
    assert_eq!(task.enqueued_at, 1_000);
    assert_eq!(task.started_at, None);
    assert_eq!(task.finished_at, None);
    assert_eq!(task.batch_uid, None);
    assert_eq!(task.error, None);
    assert_eq!(task.canceled_by, None);
    let second = queue.register(settings("books", "{}"), 1_001).unwrap();
    assert_eq!(second.uid, 1);
    assert_eq!(queue.next_task_id(), Ok(2));
    assert_eq!(queue.last_task_id(), Ok(Some(2)));
    assert_eq!(queue.len(), 2);
}

#[test]
fn enqueued_task_round_trips() {
    let mut queue = TaskQueue::new();
    let kind = addition("books", 7);
    let task = queue.register(kind.clone(), 5).unwrap();
    let stored = queue.get_task(task.uid).unwrap();
    assert_eq!(stored.kind, kind);
    assert_eq!(*stored, task);
    assert_eq!(
        stored.details,
        Some(Details::DocumentAdditionOrUpdate { received_documents: 2, indexed_documents: None })
    );
    assert!(queue.get_task(1).is_none());
}

#[test]
fn tables_follow_the_tasks() {
    let mut queue = TaskQueue::new();
    queue.register(addition("books", 1), 10).unwrap();
    queue.register(settings("books", "{}"), 20).unwrap();
    queue.register(addition("movies", 2), 20).unwrap();
    queue.register(swap(&[("books", "movies")]), 30).unwrap();
    assert_eq!(ids(&queue.get_status(Status::Enqueued)), vec![0, 1, 2, 3]);
    assert_eq!(ids(&queue.get_status(Status::Processing)), Vec::<u32>::new());
    assert_eq!(ids(&queue.get_kind(Kind::DocumentAdditionOrUpdate)), vec![0, 2]);
    assert_eq!(ids(&queue.get_kind(Kind::SettingsUpdate)), vec![1]);
    assert_eq!(ids(&queue.get_kind(Kind::IndexSwap)), vec![3]);
    assert_eq!(ids(&queue.index_tasks(&"books".to_string())), vec![0, 1, 3]);
    assert_eq!(ids(&queue.index_tasks(&"movies".to_string())), vec![2, 3]);
    assert_eq!(ids(&queue.index_tasks(&"songs".to_string())), Vec::<u32>::new());
    assert_eq!(ids(&queue.all_task_ids()), vec![0, 1, 2, 3]);
    assert!(queue.enqueued_at_contains(20, 1));
    assert!(queue.enqueued_at_contains(20, 2));
    assert!(!queue.enqueued_at_contains(20, 0));
    assert!(!queue.started_at_contains(20, 1));
    assert!(queue.in_status(Status::Enqueued, 3));
    assert!(queue.in_kind(Kind::IndexSwap, 3));
    assert!(queue.in_index(&"movies".to_string(), 3));
    assert!(!queue.in_batch(0, 3));
}

#[test]
fn update_task_moves_the_task_between_tables() {
    let mut queue = TaskQueue::new();
    let mut task = queue.register(addition("books", 1), 10).unwrap();
    queue.register(addition("books", 2), 11).unwrap();
    task.status = Status::Processing;
    task.batch_uid = Some(4);
    assert_eq!(queue.update_task(&task), Ok(()));
    assert_eq!(ids(&queue.get_status(Status::Enqueued)), vec![1]);
    assert_eq!(ids(&queue.get_status(Status::Processing)), vec![0]);
    assert_eq!(ids(&queue.tasks_in_batch(4)), vec![0]);
    task.status = Status::Succeeded;
    task.started_at = Some(20);
    task.finished_at = Some(30);
    assert_eq!(queue.update_task(&task), Ok(()));
    assert_eq!(ids(&queue.get_status(Status::Processing)), Vec::<u32>::new());
    assert_eq!(ids(&queue.get_status(Status::Succeeded)), vec![0]);
    assert!(queue.started_at_contains(20, 0));
    assert!(queue.finished_at_contains(30, 0));
    assert!(queue.enqueued_at_contains(10, 0));
    assert_eq!(queue.get_task(0).unwrap().status, Status::Succeeded);
}

#[test]
fn update_task_rejects_illegal_changes() {
    let mut queue = TaskQueue::new();
    let task = queue.register(addition("books", 1), 10).unwrap();

    let mut unknown = task.clone();
    unknown.uid = 9;
    assert_eq!(queue.update_task(&unknown), Err(Error::CorruptedTaskQueue));

    let mut moved = task.clone();
    moved.enqueued_at = 11;
    assert_eq!(queue.update_task(&moved), Err(Error::IllegalTaskUpdate));
    assert_eq!(queue.can_update(&moved), Err(Error::IllegalTaskUpdate));

    let mut done = task.clone();
    done.status = Status::Failed;
    done.started_at = Some(20);
    done.finished_at = Some(30);
    assert_eq!(queue.can_update(&done), Ok(()));
    assert_eq!(queue.update_task(&done), Ok(()));

    let mut restarted = done.clone();
    restarted.started_at = Some(21);
    assert_eq!(queue.update_task(&restarted), Err(Error::IllegalTaskUpdate));
    let mut refinished = done.clone();
    refinished.finished_at = None;
    assert_eq!(queue.update_task(&refinished), Err(Error::IllegalTaskUpdate));
    let mut revived = done.clone();
    revived.status = Status::Enqueued;
    assert_eq!(queue.update_task(&revived), Err(Error::IllegalTaskUpdate));
    assert_eq!(*queue.get_task(0).unwrap(), done);
    assert_eq!(ids(&queue.get_status(Status::Failed)), vec![0]);
}

#[test]
fn commit_tasks_is_all_or_nothing() {
    let mut queue = TaskQueue::new();
    let mut a = queue.register(addition("books", 1), 10).unwrap();
    let mut b = queue.register(addition("books", 2), 11).unwrap();
    a.status = Status::Processing;
    b.status = Status::Processing;
    b.enqueued_at = 12;
    assert_eq!(queue.commit_tasks(&vec![a.clone(), b.clone()]), Err(Error::IllegalTaskUpdate));
    assert_eq!(ids(&queue.get_status(Status::Enqueued)), vec![0, 1]);
    b.enqueued_at = 11;
    assert_eq!(queue.commit_tasks(&vec![b.clone(), a.clone()]), Err(Error::CorruptedTaskQueue));
    assert_eq!(ids(&queue.get_status(Status::Enqueued)), vec![0, 1]);
    assert_eq!(queue.commit_tasks(&vec![a, b]), Ok(()));
    assert_eq!(ids(&queue.get_status(Status::Processing)), vec![0, 1]);
}

#[test]
fn remove_task_unfiles_it() {
    let mut queue = TaskQueue::new();
    queue.register(addition("books", 1), 10).unwrap();
    queue.register(addition("books", 2), 11).unwrap();
    assert!(queue.remove_task(0));
    assert!(!queue.remove_task(0));
    assert!(queue.get_task(0).is_none());
    assert_eq!(ids(&queue.get_status(Status::Enqueued)), vec![1]);
    assert_eq!(ids(&queue.index_tasks(&"books".to_string())), vec![1]);
    assert_eq!(queue.next_task_id(), Ok(2));
}

#[test]
fn get_existing_tasks_needs_them_all() {
    let mut queue = TaskQueue::new();
    queue.register(addition("books", 1), 10).unwrap();
    queue.register(addition("movies", 2), 11).unwrap();
    let found = queue.get_existing_tasks(&vec![1, 0]).unwrap();
    assert_eq!(found.len(), 2);
    assert_eq!(found[0].uid, 1);
    assert_eq!(found[1].uid, 0);
    assert_eq!(queue.get_existing_tasks(&vec![0, 2]), Err(Error::CorruptedTaskQueue));
}

fn filled_queue() -> TaskQueue {
    let mut queue = TaskQueue::new();
    let mut a = queue.register(addition("books", 1), 100).unwrap();
    let mut b = queue.register(settings("books", "{}"), 200).unwrap();
    queue.register(addition("movies", 2), 300).unwrap();
    queue.register(settings("movies", "{}"), 400).unwrap();
    a.status = Status::Succeeded;
    a.batch_uid = Some(0);
    a.started_at = Some(150);
    a.finished_at = Some(160);
    queue.update_task(&a).unwrap();
    b.status = Status::Canceled;
    b.canceled_by = Some(9);
    b.finished_at = Some(250);
    queue.update_task(&b).unwrap();
    queue
}

#[test]
fn filter_tasks_joins_the_criteria() {
    let queue = filled_queue();
    assert_eq!(ids(&queue.filter_tasks(&Query::any())), vec![0, 1, 2, 3]);

    let mut by_status = Query::any();
    by_status.statuses = Some(vec![Status::Succeeded, Status::Canceled]);
    assert_eq!(ids(&queue.filter_tasks(&by_status)), vec![0, 1]);

    let mut by_kind = Query::any();
    by_kind.types = Some(vec![Kind::SettingsUpdate]);
    assert_eq!(ids(&queue.filter_tasks(&by_kind)), vec![1, 3]);

    let mut both = Query::any();
    both.statuses = Some(vec![Status::Enqueued]);
    both.types = Some(vec![Kind::SettingsUpdate, Kind::IndexSwap]);
    assert_eq!(ids(&queue.filter_tasks(&both)), vec![3]);

    let mut by_index = Query::any();
    by_index.index_uids = Some(vec!["movies".to_string(), "nothing".to_string()]);
    assert_eq!(ids(&queue.filter_tasks(&by_index)), vec![2, 3]);

    let mut by_uid = Query::any();
    by_uid.uids = Some(vec![3, 0, 17]);
    assert_eq!(ids(&queue.filter_tasks(&by_uid)), vec![0, 3]);

    let mut by_canceler = Query::any();
    by_canceler.canceled_by = Some(vec![9]);
    assert_eq!(ids(&queue.filter_tasks(&by_canceler)), vec![1]);

    let mut by_batch = Query::any();
    by_batch.batch_uids = Some(vec![0]);
    assert_eq!(ids(&queue.filter_tasks(&by_batch)), vec![0]);

    let mut upto = Query::any();
    upto.from = Some(1);
    assert_eq!(ids(&queue.filter_tasks(&upto)), vec![0, 1]);

    let mut none = Query::any();
    none.statuses = Some(vec![]);
    assert_eq!(ids(&queue.filter_tasks(&none)), Vec::<u32>::new());
}

#[test]
fn filter_tasks_by_time() {
    let queue = filled_queue();
    let mut after = Query::any();
    after.after_enqueued_at = Some(200);
    assert_eq!(ids(&queue.filter_tasks(&after)), vec![2, 3]);
    let mut before = Query::any();
    before.before_enqueued_at = Some(300);
    assert_eq!(ids(&queue.filter_tasks(&before)), vec![0, 1]);
    let mut between = Query::any();
    between.after_enqueued_at = Some(100);
    between.before_enqueued_at = Some(400);
    assert_eq!(ids(&queue.filter_tasks(&between)), vec![1, 2]);
    let mut started = Query::any();
    started.after_started_at = Some(0);
    assert_eq!(ids(&queue.filter_tasks(&started)), vec![0]);
    let mut finished = Query::any();
    finished.before_finished_at = Some(1_000);
    assert_eq!(ids(&queue.filter_tasks(&finished)), vec![0, 1]);
}

#[test]
fn time_range_with_equal_bounds_is_empty() {
    let queue = filled_queue();
    let mut query = Query::any();
    query.after_enqueued_at = Some(200);
    query.before_enqueued_at = Some(200);
    assert_eq!(ids(&queue.filter_tasks(&query)), Vec::<u32>::new());
    let mut query = Query::any();
    query.after_started_at = Some(150);
    query.before_started_at = Some(150);
    assert_eq!(ids(&queue.filter_tasks(&query)), Vec::<u32>::new());
    let mut query = Query::any();
    query.after_finished_at = Some(160);
    query.before_finished_at = Some(160);
    assert_eq!(ids(&queue.filter_tasks(&query)), Vec::<u32>::new());
}

#[test]
fn index_swap_with_the_same_index_twice_is_rejected() {
    let mut queue = TaskQueue::new();
    assert_eq!(
        queue.register(swap(&[("a", "a")]), 1),
        Err(Error::SwapDuplicateIndexFound("a".to_string()))
    );
    assert_eq!(queue.next_task_id(), Ok(0));
    assert_eq!(
        queue.register(swap(&[("b", "a"), ("c", "b"), ("a", "d")]), 1),
        Err(Error::SwapDuplicateIndexesFound(vec!["a".to_string(), "b".to_string()]))
    );
    let task = queue.register(swap(&[("a", "b"), ("c", "d")]), 1).unwrap();
    assert_eq!(task.uid, 0);
}

fn task_of(kind: KindWithContent) -> Task {
    Task {
        uid: 5,
        batch_uid: None,
        enqueued_at: 0,
        started_at: None,
        finished_at: None,
        error: None,
        canceled_by: None,
        details: kind.default_details(),
        status: Status::Enqueued,
        kind,
    }
}

#[test]
fn swap_validity_names_the_duplicates_in_order() {
    assert_eq!(check_index_swap_validity(&task_of(addition("a", 1))), Ok(()));
    assert_eq!(check_index_swap_validity(&task_of(swap(&[]))), Ok(()));
    assert_eq!(check_index_swap_validity(&task_of(swap(&[("a", "b"), ("c", "d")]))), Ok(()));
    assert_eq!(
        check_index_swap_validity(&task_of(swap(&[("a", "b"), ("c", "a"), ("a", "e")]))),
        Err(Error::SwapDuplicateIndexFound("a".to_string()))
    );
    assert_eq!(
        check_index_swap_validity(&task_of(swap(&[("z", "b"), ("b", "z"), ("m", "m")]))),
        Err(Error::SwapDuplicateIndexesFound(vec![
            "b".to_string(),
            "m".to_string(),
            "z".to_string()
        ]))
    );
}

#[test]
fn references_to_newer_tasks_are_filtered_out() {
    let mut task = task_of(KindWithContent::TaskCancelation {
        query: "uids=1,5,9".to_string(),
        tasks: bitmap(&[1, 4, 5, 9]),
    });
    assert_eq!(
        task.details,
        Some(Details::TaskCancelation {
            matched_tasks: 4,
            canceled_tasks: None,
            original_filter: "uids=1,5,9".to_string()
        })
    );
    filter_out_references_to_newer_tasks(&mut task);
    match &task.kind {
        KindWithContent::TaskCancelation { tasks, .. } => assert_eq!(ids(tasks), vec![1, 4]),
        _ => unreachable!(),
    }
    assert_eq!(
        task.details,
        Some(Details::TaskCancelation {
            matched_tasks: 2,
            canceled_tasks: None,
            original_filter: "uids=1,5,9".to_string()
        })
    );
    let once = task.clone();
    filter_out_references_to_newer_tasks(&mut task);
    assert_eq!(task, once);

    let mut deletion = task_of(KindWithContent::TaskDeletion {
        query: "all".to_string(),
        tasks: bitmap(&[0, 5, 6]),
    });
    filter_out_references_to_newer_tasks(&mut deletion);
    match &deletion.kind {
        KindWithContent::TaskDeletion { tasks, .. } => assert_eq!(ids(tasks), vec![0]),
        _ => unreachable!(),
    }
    assert_eq!(
        deletion.details,
        Some(Details::TaskDeletion {
            matched_tasks: 1,
            deleted_tasks: None,
            original_filter: "all".to_string()
        })
    );

    let mut other = task_of(addition("books", 1));
    let before = other.clone();
    filter_out_references_to_newer_tasks(&mut other);
    assert_eq!(other, before);
}

#[test]
fn a_cancellation_cannot_target_itself() {
    let mut queue = TaskQueue::new();
    queue.register(settings("z", "{}"), 1).unwrap();
    let task = queue
        .register(
            KindWithContent::TaskCancelation { query: "all".to_string(), tasks: bitmap(&[0, 1, 2]) },
            2,
        )
        .unwrap();
    assert_eq!(task.uid, 1);
    match &task.kind {
        KindWithContent::TaskCancelation { tasks, .. } => assert_eq!(ids(tasks), vec![0]),
        _ => unreachable!(),
    }
    assert_eq!(
        task.details,
        Some(Details::TaskCancelation {
            matched_tasks: 1,
            canceled_tasks: None,
            original_filter: "all".to_string()
        })
    );
}

#[test]
fn swapping_index_names_in_a_task() {
    let mut task = task_of(addition("a", 1));
    swap_index_uid_in_task(&mut task, ("a", "b"));
    assert_eq!(task.kind, addition("b", 1));
    swap_index_uid_in_task(&mut task, ("a", "b"));
    assert_eq!(task.kind, addition("a", 1));
    swap_index_uid_in_task(&mut task, ("c", "d"));
    assert_eq!(task.kind, addition("a", 1));

    let mut swaps = task_of(swap(&[("a", "b"), ("c", "d")]));
    swap_index_uid_in_task(&mut swaps, ("a", "c"));
    assert_eq!(swaps.kind, swap(&[("c", "b"), ("a", "d")]));
    assert_eq!(
        swaps.details,
        Some(Details::IndexSwap {
            swaps: vec![
                IndexSwap { indexes: ("c".to_string(), "b".to_string()) },
                IndexSwap { indexes: ("a".to_string(), "d".to_string()) }
            ]
        })
    );

    let mut cancel = task_of(KindWithContent::TaskCancelation {
        query: "a".to_string(),
        tasks: bitmap(&[1]),
    });
    let before = cancel.clone();
    swap_index_uid_in_task(&mut cancel, ("a", "b"));
    assert_eq!(cancel, before);
}

#[test]
fn clamping_to_the_page_size() {
    assert_eq!(round_down_to_multiple(10_000, 4096), 8192);
    assert_eq!(round_down_to_multiple(4096, 4096), 4096);
    assert_eq!(round_down_to_multiple(4095, 4096), 0);
    assert_eq!(round_down_to_multiple(7, 1), 7);
    let page = page_size::get();
    let clamped = clamp_to_page_size(10 * page + 17);
    assert_eq!(clamped, 10 * page);
    assert_eq!(clamp_to_page_size(page - 1), 0);
}

#[test]
fn clamping_to_a_given_page() {
    assert_eq!(clamp_to_page(10_000, 4096), 8192);
    assert_eq!(clamp_to_page(8192, 4096), 8192);
    assert_eq!(clamp_to_page(4095, 4096), 0);
    assert_eq!(clamp_to_page(0, 4096), 0);
    assert_eq!(clamp_to_page(10_000, 0), 10_000);
    assert_eq!(clamp_to_page(usize::MAX, 1), usize::MAX);
    let page = page_size::get();
    assert_eq!(clamp_to_page_size(3 * page + 1), clamp_to_page(3 * page + 1, page));
}

#[test]
fn dichotomic_search_finds_the_threshold() {
    assert_eq!(dichotomic_search(1, |x| x <= 10), 10);
    assert_eq!(dichotomic_search(10, |x| x <= 10), 10);
    assert_eq!(dichotomic_search(11, |x| x <= 10), 10);
    assert_eq!(dichotomic_search(1_000, |x| x <= 10), 10);
    assert_eq!(dichotomic_search(3, |x| x <= 1_000_000), 1_000_000);
    assert_eq!(dichotomic_search(7, |x| x <= 0), 0);
    assert_eq!(dichotomic_search(0, |x| x <= 10), 0);
    assert_eq!(dichotomic_search(5, |x| x <= 5), 5);
    assert_eq!(dichotomic_search(5, |x| x <= 6), 6);
    assert_eq!(dichotomic_search(5, |x| x <= 4), 4);
}

#[test]
fn map_bound_keeps_the_kind_of_bound() {
    assert_eq!(map_bound(Bound::Included(2), |x: i32| x * 10), Bound::Included(20));
    assert_eq!(map_bound(Bound::Excluded(3), |x: i32| x + 1), Bound::Excluded(4));
    assert_eq!(map_bound(Bound::<i32>::Unbounded, |x: i32| x + 1), Bound::Unbounded);
}

#[test]
fn consistency_of_a_fresh_queue() {
    let mut queue = TaskQueue::new();
    queue.register(addition("books", 1), 10).unwrap();
    queue.register(settings("books", "{}"), 11).unwrap();
    let files = vec![Uuid::from_u128(1)];
    assert_eq!(queue.assert_internally_consistent(&files), Ok(()));
    let task = queue.get_task(0).unwrap().clone();
    assert!(queue.check_task(&task, &files));
    // the update file of a waiting addition must exist
    assert_eq!(queue.assert_internally_consistent(&vec![]), Err(0));
    assert_eq!(queue.assert_internally_consistent(&vec![Uuid::from_u128(2)]), Err(0));
}

#[test]
fn consistency_of_finished_tasks() {
    let mut queue = TaskQueue::new();
    let mut task = queue.register(addition("books", 1), 10).unwrap();
    task.status = Status::Succeeded;
    task.started_at = Some(20);
    task.finished_at = Some(30);
    queue.update_task(&task).unwrap();
    // succeeded, but no count of indexed documents
    assert_eq!(queue.assert_internally_consistent(&vec![]), Err(0));
    task.details =
        Some(Details::DocumentAdditionOrUpdate { received_documents: 2, indexed_documents: Some(3) });
    queue.update_task(&task).unwrap();
    // more documents indexed than received
    assert_eq!(queue.assert_internally_consistent(&vec![]), Err(0));
    task.details =
        Some(Details::DocumentAdditionOrUpdate { received_documents: 2, indexed_documents: Some(2) });
    queue.update_task(&task).unwrap();
    assert_eq!(queue.assert_internally_consistent(&vec![]), Ok(()));
    // the update file of a finished addition must be gone
    assert_eq!(queue.assert_internally_consistent(&vec![Uuid::from_u128(1)]), Err(0));
}

#[test]
fn consistency_of_canceled_tasks() {
    let mut queue = TaskQueue::new();
    let mut victim = queue.register(settings("z", "{}"), 10).unwrap();
    let mut canceler = queue
        .register(
            KindWithContent::TaskCancelation { query: "uids=0".to_string(), tasks: bitmap(&[0]) },
            11,
        )
        .unwrap();
    victim.status = Status::Canceled;
    victim.canceled_by = Some(1);
    victim.finished_at = Some(20);
    queue.update_task(&victim).unwrap();
    // the canceler has not succeeded yet
    assert_eq!(queue.assert_internally_consistent(&vec![]), Err(0));
    canceler.status = Status::Succeeded;
    canceler.details = Some(Details::TaskCancelation {
        matched_tasks: 1,
        canceled_tasks: Some(1),
        original_filter: "uids=0".to_string(),
    });
    queue.update_task(&canceler).unwrap();
    assert_eq!(queue.assert_internally_consistent(&vec![]), Ok(()));
    canceler.details = Some(Details::TaskCancelation {
        matched_tasks: 1,
        canceled_tasks: Some(2),
        original_filter: "uids=0".to_string(),
    });
    queue.update_task(&canceler).unwrap();
    assert_eq!(queue.assert_internally_consistent(&vec![]), Err(1));
}

#[test]
fn list_tasks_pages_from_the_newest() {
    let queue = filled_queue();
    let (page, next) = queue.list_tasks(&Query::any(), 3);
    assert_eq!(page.iter().map(|t| t.uid).collect::<Vec<_>>(), vec![3, 2, 1]);
    assert_eq!(next, Some(0));
    let mut rest = Query::any();
    rest.from = next;
    let (page, next) = queue.list_tasks(&rest, 3);
    assert_eq!(page.iter().map(|t| t.uid).collect::<Vec<_>>(), vec![0]);
    assert_eq!(next, None);
    let (page, next) = queue.list_tasks(&Query::any(), 4);
    assert_eq!(page.len(), 4);
    assert_eq!(next, None);
    let (page, next) = queue.list_tasks(&Query::any(), 0);
    assert!(page.is_empty());
    assert_eq!(next, Some(3));
    let mut settings_only = Query::any();
    settings_only.types = Some(vec![Kind::SettingsUpdate]);
    let (page, next) = queue.list_tasks(&settings_only, 1);
    assert_eq!(page.len(), 1);
    assert_eq!(page[0].uid, 3);
    assert_eq!(page[0].kind, settings("movies", "{}"));
    assert_eq!(next, Some(1));
    assert_eq!(*queue.get_task(3).unwrap(), page[0]);
}

#[test]
fn a_queue_is_restored_from_its_records() {
    let queue = filled_queue();
    let mut records: Vec<Task> =
        (0..4).map(|uid| queue.get_task(uid).unwrap().clone()).collect();
    records.remove(1);
    let restored = TaskQueue::restore(records.clone()).unwrap();
    assert_eq!(restored.len(), 3);
    assert_eq!(ids(&restored.all_task_ids()), vec![0, 2, 3]);
    assert_eq!(ids(&restored.get_status(Status::Succeeded)), vec![0]);
    assert_eq!(ids(&restored.get_status(Status::Enqueued)), vec![2, 3]);
    assert_eq!(ids(&restored.index_tasks(&"movies".to_string())), vec![2, 3]);
    assert_eq!(ids(&restored.tasks_in_batch(0)), vec![0]);
    assert!(restored.started_at_contains(150, 0));
    assert_eq!(*restored.get_task(2).unwrap(), records[1]);
    assert_eq!(restored.next_task_id(), Ok(4));
    // the addition that succeeded does not say how many documents were indexed
    assert_eq!(restored.assert_internally_consistent(&vec![Uuid::from_u128(2)]), Err(0));
    records.swap(0, 1);
    assert!(matches!(TaskQueue::restore(records.clone()), Err(Error::CorruptedTaskQueue)));
    records[0] = records[1].clone();
    assert!(matches!(TaskQueue::restore(records), Err(Error::CorruptedTaskQueue)));
    assert_eq!(TaskQueue::restore(vec![]).unwrap().len(), 0);
}

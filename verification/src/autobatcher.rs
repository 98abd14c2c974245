//! The batcher: which of the enqueued tasks are processed together next.
//!
//! The choice is a function of the enqueued tasks alone, taken in the order in
//! which they were enqueued. Cancellations come first, then deletions of tasks,
//! then snapshots, then one dump; after those, the oldest task decides: its index
//! is served, with as many of the tasks that follow on that index as can share one
//! operation.

use crate::consistency::opt_text_equal;
use crate::batches::task_views;
use crate::tasks::{KindView, KindWithContent, Task, TaskId, TaskView};
use vstd::prelude::*;

verus! {

/// The operation that a batch performs.
#[derive(Clone, Copy, Debug, PartialEq, Eq, Structural, Hash)]
pub enum BatchKind {
    /// Every enqueued cancellation.
    TaskCancelation,
    /// Every enqueued deletion of tasks.
    TaskDeletion,
    /// Every enqueued snapshot, taken as one.
    SnapshotCreation,
    /// One dump.
    DumpCreation,
    /// The enqueued swaps if no index occurs in two of them, else the first alone.
    IndexSwap,
    /// A deletion of the index, with every task on the index enqueued before it.
    IndexDeletion,
    /// One creation or update of the index, or one edition of its documents, alone.
    IndexOperation,
    /// The settings updates that lead the tasks on the index.
    SettingsUpdate,
    /// A clearing of the documents, with the document operations enqueued before it.
    DocumentClear,
    /// The additions that lead the tasks on the index and share method and primary key.
    DocumentAddition,
    /// The deletions of documents that lead the tasks on the index.
    DocumentDeletion,
}

/// A question asked of a task, some of them with a reference task in mind.
#[derive(Clone, Copy, Debug, PartialEq, Eq, Structural, Hash)]
pub enum Wanted {
    Cancelation,
    Deletion,
    Snapshot,
    Dump,
    Swap,
    IndexDeletion,
    Settings,
    Clear,
    /// An addition, a deletion of documents or a clearing.
    DocumentOperation,
    /// A deletion of documents, by identifier or by filter.
    DocumentDeletion,
    /// An addition with the method and the primary key of the reference.
    SameAddition,
    /// A task on the one index that the reference works on.
    SameIndex,
}

/// Whether the task `t` is what is wanted, given the reference task.
pub open spec fn accepts(w: Wanted, reference: TaskView, t: TaskView) -> bool {
    match w {
        Wanted::Cancelation => t.kind is TaskCancelation,
        Wanted::Deletion => t.kind is TaskDeletion,
        Wanted::Snapshot => t.kind is SnapshotCreation,
        Wanted::Dump => t.kind is DumpCreation,
        Wanted::Swap => t.kind is IndexSwap,
        Wanted::IndexDeletion => t.kind is IndexDeletion,
        Wanted::Settings => t.kind is SettingsUpdate,
        Wanted::Clear => t.kind is DocumentClear,
        Wanted::DocumentOperation => t.kind is DocumentAdditionOrUpdate || t.kind
            is DocumentDeletion || t.kind is DocumentDeletionByFilter || t.kind is DocumentClear,
        Wanted::DocumentDeletion => t.kind is DocumentDeletion || t.kind
            is DocumentDeletionByFilter,
        Wanted::SameAddition => {
            &&& t.kind matches KindView::DocumentAdditionOrUpdate { method, primary_key, .. }
            &&& reference.kind matches KindView::DocumentAdditionOrUpdate {
                method: of_reference,
                primary_key: key_of_reference,
                ..
            }
            &&& method == of_reference
            &&& primary_key == key_of_reference
        },
        Wanted::SameIndex => t.kind.index_uid() is Some && t.kind.index_uid()
            == reference.kind.index_uid(),
    }
}

/// Of the first `n` tasks, those that are wanted, in order.
pub open spec fn picked(e: Seq<TaskView>, w: Wanted, reference: TaskView, n: int) -> Seq<TaskView>
    decreases n,
{
    if n <= 0 {
        Seq::empty()
    } else if accepts(w, reference, e[n - 1]) {
        picked(e, w, reference, n - 1).push(e[n - 1])
    } else {
        picked(e, w, reference, n - 1)
    }
}

/// The place of the first wanted task at or after `i`, or the length of the list.
pub open spec fn first_where(e: Seq<TaskView>, w: Wanted, reference: TaskView, i: int) -> int
    decreases e.len() - i,
{
    if i < 0 || i >= e.len() {
        e.len() as int
    } else if accepts(w, reference, e[i]) {
        i
    } else {
        first_where(e, w, reference, i + 1)
    }
}

/// The place of the last wanted task below `n`, or -1.
pub open spec fn last_where(e: Seq<TaskView>, w: Wanted, reference: TaskView, n: int) -> int
    decreases n,
{
    if n <= 0 || n > e.len() {
        -1
    } else if accepts(w, reference, e[n - 1]) {
        n - 1
    } else {
        last_where(e, w, reference, n - 1)
    }
}

/// How many wanted tasks lead the list from `i` on without a break, as the place
/// where the run ends.
pub open spec fn leading(e: Seq<TaskView>, w: Wanted, reference: TaskView, i: int) -> int
    decreases e.len() - i,
{
    if i < 0 || i >= e.len() || !accepts(w, reference, e[i]) {
        i
    } else {
        leading(e, w, reference, i + 1)
    }
}

pub open spec fn uids(e: Seq<TaskView>) -> Seq<TaskId> {
    e.map_values(|t: TaskView| t.uid)
}

/// Whether two of the swaps among the tasks name a common index.
pub open spec fn swaps_overlap(e: Seq<TaskView>) -> bool {
    exists|i: int, j: int, name: Seq<char>|
        0 <= i < j < e.len() && e[i].kind is IndexSwap && e[j].kind is IndexSwap
            && #[trigger] e[i].kind.indexes().contains(name) && #[trigger] e[j].kind.indexes().contains(
            name,
        )
}

/// The batch that is chosen: what it does, and the tasks it claims, in order.
pub struct PlanView {
    pub kind: BatchKind,
    pub tasks: Seq<TaskId>,
}

/// The batch that is chosen when the oldest enqueued task works on an index.
pub open spec fn planned_on_index(e: Seq<TaskView>) -> PlanView
    recommends
        e.len() > 0,
{
    let first = e[0];
    let s = picked(e, Wanted::SameIndex, first, e.len() as int);
    let deletion = first_where(s, Wanted::IndexDeletion, first, 0);
    if first.kind.index_uid() is None {
        PlanView { kind: BatchKind::IndexOperation, tasks: seq![first.uid] }
    } else if deletion < s.len() {
        PlanView { kind: BatchKind::IndexDeletion, tasks: uids(s.take(deletion + 1)) }
    } else if first.kind is SettingsUpdate {
        PlanView {
            kind: BatchKind::SettingsUpdate,
            tasks: uids(s.take(leading(s, Wanted::Settings, first, 0))),
        }
    } else if !accepts(Wanted::DocumentOperation, first, first) {
        PlanView { kind: BatchKind::IndexOperation, tasks: seq![first.uid] }
    } else {
        let operations = leading(s, Wanted::DocumentOperation, first, 0);
        let clear = last_where(s, Wanted::Clear, first, operations);
        if clear >= 0 {
            PlanView { kind: BatchKind::DocumentClear, tasks: uids(s.take(clear + 1)) }
        } else if first.kind is DocumentAdditionOrUpdate {
            PlanView {
                kind: BatchKind::DocumentAddition,
                tasks: uids(s.take(leading(s, Wanted::SameAddition, first, 0))),
            }
        } else {
            PlanView {
                kind: BatchKind::DocumentDeletion,
                tasks: uids(s.take(leading(s, Wanted::DocumentDeletion, first, 0))),
            }
        }
    }
}

/// The batch that is chosen among the enqueued tasks `e`, which come in the order
/// in which they were enqueued; none when nothing is enqueued.
pub open spec fn planned(e: Seq<TaskView>) -> Option<PlanView> {
    let n = e.len() as int;
    if n == 0 {
        None
    } else {
        let first = e[0];
        Some(
            if first_where(e, Wanted::Cancelation, first, 0) < n {
                PlanView {
                    kind: BatchKind::TaskCancelation,
                    tasks: uids(picked(e, Wanted::Cancelation, first, n)),
                }
            } else if first_where(e, Wanted::Deletion, first, 0) < n {
                PlanView {
                    kind: BatchKind::TaskDeletion,
                    tasks: uids(picked(e, Wanted::Deletion, first, n)),
                }
            } else if first_where(e, Wanted::Snapshot, first, 0) < n {
                PlanView {
                    kind: BatchKind::SnapshotCreation,
                    tasks: uids(picked(e, Wanted::Snapshot, first, n)),
                }
            } else if first_where(e, Wanted::Dump, first, 0) < n {
                PlanView {
                    kind: BatchKind::DumpCreation,
                    tasks: seq![e[first_where(e, Wanted::Dump, first, 0)].uid],
                }
            } else if first.kind is IndexSwap {
                PlanView {
                    kind: BatchKind::IndexSwap,
                    tasks: if swaps_overlap(e) {
                        seq![first.uid]
                    } else {
                        uids(picked(e, Wanted::Swap, first, n))
                    },
                }
            } else {
                planned_on_index(e)
            },
        )
    }
}

/// The batch that was chosen.
#[derive(Debug, Clone, PartialEq, Eq)]
pub struct BatchPlan {
    pub kind: BatchKind,
    /// The tasks that the batch claims, in the order in which they were enqueued.
    pub tasks: Vec<TaskId>,
}

impl View for BatchPlan {
    type V = PlanView;

    open spec fn view(&self) -> PlanView {
        PlanView { kind: self.kind, tasks: self.tasks@ }
    }
}

pub open spec fn opt_plan_view(p: Option<BatchPlan>) -> Option<PlanView> {
    match p {
        Some(p) => Some(p@),
        None => None,
    }
}

pub open spec fn ref_views(tasks: Seq<&Task>) -> Seq<TaskView> {
    tasks.map_values(|t: &Task| t@)
}

fn is_wanted(w: Wanted, reference: &Task, task: &Task) -> (r: bool)
    ensures
        r == accepts(w, reference@, task@),
{
    match w {
        Wanted::Cancelation => match &task.kind {
            KindWithContent::TaskCancelation { .. } => true,
            _ => false,
        },
        Wanted::Deletion => match &task.kind {
            KindWithContent::TaskDeletion { .. } => true,
            _ => false,
        },
        Wanted::Snapshot => match &task.kind {
            KindWithContent::SnapshotCreation => true,
            _ => false,
        },
        Wanted::Dump => match &task.kind {
            KindWithContent::DumpCreation { .. } => true,
            _ => false,
        },
        Wanted::Swap => match &task.kind {
            KindWithContent::IndexSwap { .. } => true,
            _ => false,
        },
        Wanted::IndexDeletion => match &task.kind {
            KindWithContent::IndexDeletion { .. } => true,
            _ => false,
        },
        Wanted::Settings => match &task.kind {
            KindWithContent::SettingsUpdate { .. } => true,
            _ => false,
        },
        Wanted::Clear => match &task.kind {
            KindWithContent::DocumentClear { .. } => true,
            _ => false,
        },
        Wanted::DocumentOperation => match &task.kind {
            KindWithContent::DocumentAdditionOrUpdate { .. }
            | KindWithContent::DocumentDeletion { .. }
            | KindWithContent::DocumentDeletionByFilter { .. }
            | KindWithContent::DocumentClear { .. } => true,
            _ => false,
        },
        Wanted::DocumentDeletion => match &task.kind {
            KindWithContent::DocumentDeletion { .. }
            | KindWithContent::DocumentDeletionByFilter { .. } => true,
            _ => false,
        },
        Wanted::SameAddition => match (&task.kind, &reference.kind) {
            (
                KindWithContent::DocumentAdditionOrUpdate { method, primary_key, .. },
                KindWithContent::DocumentAdditionOrUpdate {
                    method: of_reference,
                    primary_key: key_of_reference,
                    ..
                },
            ) => *method == *of_reference && opt_text_equal(primary_key, key_of_reference),
            _ => false,
        },
        Wanted::SameIndex => match (task.index_uid(), reference.index_uid()) {
            (Some(a), Some(b)) => *a == *b,
            _ => false,
        },
    }
}

fn find_first(tasks: &Vec<&Task>, w: Wanted, reference: &Task, from: usize) -> (r: usize)
    ensures
        r == first_where(ref_views(tasks@), w, reference@, from as int),
        from <= tasks.len() ==> from <= r <= tasks.len(),
    decreases tasks.len() - from,
{
    if from >= tasks.len() {
        tasks.len()
    } else if is_wanted(w, reference, tasks[from]) {
        from
    } else {
        find_first(tasks, w, reference, from + 1)
    }
}

fn find_last(tasks: &Vec<&Task>, w: Wanted, reference: &Task, below: usize) -> (r: Option<usize>)
    requires
        below <= tasks.len(),
    ensures
        match r {
            Some(i) => i == last_where(ref_views(tasks@), w, reference@, below as int) && i < below,
            None => last_where(ref_views(tasks@), w, reference@, below as int) == -1,
        },
    decreases below,
{
    if below == 0 {
        None
    } else if is_wanted(w, reference, tasks[below - 1]) {
        Some(below - 1)
    } else {
        find_last(tasks, w, reference, below - 1)
    }
}

fn run_end(tasks: &Vec<&Task>, w: Wanted, reference: &Task, from: usize) -> (r: usize)
    requires
        from <= tasks.len(),
    ensures
        r == leading(ref_views(tasks@), w, reference@, from as int),
        from <= r <= tasks.len(),
    decreases tasks.len() - from,
{
    if from >= tasks.len() || !is_wanted(w, reference, tasks[from]) {
        from
    } else {
        run_end(tasks, w, reference, from + 1)
    }
}

fn pick<'a>(tasks: &Vec<&'a Task>, w: Wanted, reference: &Task) -> (r: Vec<&'a Task>)
    ensures
        ref_views(r@) == picked(ref_views(tasks@), w, reference@, tasks.len() as int),
{
    let mut out: Vec<&'a Task> = Vec::new();
    let mut i: usize = 0;
    while i < tasks.len()
        invariant
            i <= tasks.len(),
            ref_views(out@) == picked(ref_views(tasks@), w, reference@, i as int),
        decreases tasks.len() - i,
    {
        let ghost before = out@;
        if is_wanted(w, reference, tasks[i]) {
            out.push(tasks[i]);
            assert(ref_views(out@) =~= ref_views(before).push(tasks[i as int]@));
        }
        i += 1;
    }
    out
}

fn uids_of(tasks: &Vec<&Task>, upto: usize) -> (r: Vec<TaskId>)
    requires
        upto <= tasks.len(),
    ensures
        r@ == uids(ref_views(tasks@).take(upto as int)),
{
    let mut out: Vec<TaskId> = Vec::new();
    let mut i: usize = 0;
    while i < upto
        invariant
            i <= upto <= tasks.len(),
            out.len() == i,
            forall|j: int| 0 <= j < i ==> out[j] == (#[trigger] tasks[j]).uid,
        decreases upto - i,
    {
        out.push(tasks[i].uid);
        i += 1;
    }
    assert(out@ =~= uids(ref_views(tasks@).take(upto as int)));
    out
}

fn names_overlap(a: &Task, b: &Task) -> (r: bool)
    ensures
        r == exists|name: Seq<char>|
            #[trigger] a@.kind.indexes().contains(name) && b@.kind.indexes().contains(name),
{
    let xs = a.indexes();
    let ys = b.indexes();
    let mut i: usize = 0;
    while i < xs.len()
        invariant
            i <= xs.len(),
            forall|name: Seq<char>|
                a@.kind.indexes().contains(name) <==> exists|p: int|
                    0 <= p < xs.len() && (#[trigger] xs[p])@ == name,
            forall|name: Seq<char>|
                b@.kind.indexes().contains(name) <==> exists|q: int|
                    0 <= q < ys.len() && (#[trigger] ys[q])@ == name,
            forall|p: int, q: int|
                0 <= p < i && 0 <= q < ys.len() ==> (#[trigger] xs[p])@ != (#[trigger] ys[q])@,
        decreases xs.len() - i,
    {
        let mut j: usize = 0;
        while j < ys.len()
            invariant
                i < xs.len(),
                j <= ys.len(),
                forall|name: Seq<char>|
                    a@.kind.indexes().contains(name) <==> exists|p: int|
                        0 <= p < xs.len() && (#[trigger] xs[p])@ == name,
                forall|name: Seq<char>|
                    b@.kind.indexes().contains(name) <==> exists|q: int|
                        0 <= q < ys.len() && (#[trigger] ys[q])@ == name,
                forall|q: int| 0 <= q < j ==> xs[i as int]@ != (#[trigger] ys[q])@,
            decreases ys.len() - j,
        {
            if *xs[i] == *ys[j] {
                proof {
                    let name = xs[i as int]@;
                    assert(ys[j as int]@ == name);
                    assert(xs[i as int]@ == name);
                    assert(a@.kind.indexes().contains(name));
                    assert(b@.kind.indexes().contains(name));
                }
                return true;
            }
            j += 1;
        }
        i += 1;
    }
    proof {
        if exists|name: Seq<char>|
            #[trigger] a@.kind.indexes().contains(name) && b@.kind.indexes().contains(name) {
            let name = choose|name: Seq<char>|
                #[trigger] a@.kind.indexes().contains(name) && b@.kind.indexes().contains(name);
            let p = choose|p: int| 0 <= p < xs.len() && (#[trigger] xs[p])@ == name;
            let q = choose|q: int| 0 <= q < ys.len() && (#[trigger] ys[q])@ == name;
            assert(xs[p]@ != ys[q]@);
        }
    }
    false
}

fn any_swaps_overlap(tasks: &Vec<&Task>) -> (r: bool)
    ensures
        r == swaps_overlap(ref_views(tasks@)),
{
    let ghost e = ref_views(tasks@);
    let mut j: usize = 0;
    while j < tasks.len()
        invariant
            j <= tasks.len(),
            e == ref_views(tasks@),
            forall|p: int, q: int, name: Seq<char>|
                0 <= p < q < j && e[p].kind is IndexSwap && e[q].kind is IndexSwap ==> !(
                #[trigger] e[p].kind.indexes().contains(name)
                    && #[trigger] e[q].kind.indexes().contains(name)),
        decreases tasks.len() - j,
    {
        if is_wanted(Wanted::Swap, tasks[j], tasks[j]) {
            let mut i: usize = 0;
            while i < j
                invariant
                    i <= j < tasks.len(),
                    e == ref_views(tasks@),
                    e[j as int].kind is IndexSwap,
                    forall|p: int, name: Seq<char>|
                        0 <= p < i && e[p].kind is IndexSwap ==> !(
                        #[trigger] e[p].kind.indexes().contains(name)
                            && #[trigger] e[j as int].kind.indexes().contains(name)),
                decreases j - i,
            {
                if is_wanted(Wanted::Swap, tasks[i], tasks[i]) && names_overlap(tasks[i], tasks[j]) {
                    proof {
                        let name = choose|name: Seq<char>|
                            #[trigger] tasks[i as int]@.kind.indexes().contains(name)
                                && tasks[j as int]@.kind.indexes().contains(name);
                        assert(e[i as int].kind.indexes().contains(name) && e[j as int].kind.indexes().contains(
                            name,
                        ));
                    }
                    return true;
                }
                i += 1;
            }
        }
        j += 1;
    }
    proof {
        if swaps_overlap(e) {
            let (p, q, name) = choose|p: int, q: int, name: Seq<char>|
                0 <= p < q < e.len() && e[p].kind is IndexSwap && e[q].kind is IndexSwap
                    && #[trigger] e[p].kind.indexes().contains(name)
                    && #[trigger] e[q].kind.indexes().contains(name);
            assert(false);
        }
    }
    false
}

/// Chooses the next batch among the enqueued tasks, which come in the order in
/// which they were enqueued.
pub fn plan_next_batch(enqueued: &Vec<Task>) -> (r: Option<BatchPlan>)
    ensures
        opt_plan_view(r) == planned(task_views(enqueued@)),
        r is None <==> enqueued.len() == 0,
{
    if enqueued.len() == 0 {
        return None;
    }
    let mut tasks: Vec<&Task> = Vec::new();
    let mut i: usize = 0;
    while i < enqueued.len()
        invariant
            i <= enqueued.len(),
            tasks.len() == i,
            forall|j: int| 0 <= j < i ==> *(#[trigger] tasks[j]) == enqueued[j],
        decreases enqueued.len() - i,
    {
        tasks.push(&enqueued[i]);
        i += 1;
    }
    let ghost e = task_views(enqueued@);
    assert(ref_views(tasks@) =~= e);
    let n = tasks.len();
    let first = tasks[0];
    assert(first@ == e[0]);
    if find_first(&tasks, Wanted::Cancelation, first, 0) < n {
        let chosen = pick(&tasks, Wanted::Cancelation, first);
        assert(ref_views(chosen@).take(chosen.len() as int) =~= ref_views(chosen@));
        return Some(
            BatchPlan { kind: BatchKind::TaskCancelation, tasks: uids_of(&chosen, chosen.len()) },
        );
    }
    if find_first(&tasks, Wanted::Deletion, first, 0) < n {
        let chosen = pick(&tasks, Wanted::Deletion, first);
        assert(ref_views(chosen@).take(chosen.len() as int) =~= ref_views(chosen@));
        return Some(
            BatchPlan { kind: BatchKind::TaskDeletion, tasks: uids_of(&chosen, chosen.len()) },
        );
    }
    if find_first(&tasks, Wanted::Snapshot, first, 0) < n {
        let chosen = pick(&tasks, Wanted::Snapshot, first);
        assert(ref_views(chosen@).take(chosen.len() as int) =~= ref_views(chosen@));
        return Some(
            BatchPlan { kind: BatchKind::SnapshotCreation, tasks: uids_of(&chosen, chosen.len()) },
        );
    }
    let dump = find_first(&tasks, Wanted::Dump, first, 0);
    if dump < n {
        let mut chosen: Vec<TaskId> = Vec::new();
        chosen.push(tasks[dump].uid);
        assert(chosen@ =~= seq![e[dump as int].uid]);
        return Some(BatchPlan { kind: BatchKind::DumpCreation, tasks: chosen });
    }
    if is_wanted(Wanted::Swap, first, first) {
        if any_swaps_overlap(&tasks) {
            let mut chosen: Vec<TaskId> = Vec::new();
            chosen.push(first.uid);
            assert(chosen@ =~= seq![e[0].uid]);
            return Some(BatchPlan { kind: BatchKind::IndexSwap, tasks: chosen });
        }
        let chosen = pick(&tasks, Wanted::Swap, first);
        assert(ref_views(chosen@).take(chosen.len() as int) =~= ref_views(chosen@));
        return Some(BatchPlan { kind: BatchKind::IndexSwap, tasks: uids_of(&chosen, chosen.len()) });
    }
    let same = pick(&tasks, Wanted::SameIndex, first);
    let ghost s = ref_views(same@);
    let single = {
        let mut chosen: Vec<TaskId> = Vec::new();
        chosen.push(first.uid);
        assert(chosen@ =~= seq![e[0].uid]);
        chosen
    };
    if first.index_uid().is_none() {
        return Some(BatchPlan { kind: BatchKind::IndexOperation, tasks: single });
    }
    let deletion = find_first(&same, Wanted::IndexDeletion, first, 0);
    if deletion < same.len() {
        return Some(
            BatchPlan { kind: BatchKind::IndexDeletion, tasks: uids_of(&same, deletion + 1) },
        );
    }
    if is_wanted(Wanted::Settings, first, first) {
        let end = run_end(&same, Wanted::Settings, first, 0);
        return Some(BatchPlan { kind: BatchKind::SettingsUpdate, tasks: uids_of(&same, end) });
    }
    if !is_wanted(Wanted::DocumentOperation, first, first) {
        return Some(BatchPlan { kind: BatchKind::IndexOperation, tasks: single });
    }
    let operations = run_end(&same, Wanted::DocumentOperation, first, 0);
    match find_last(&same, Wanted::Clear, first, operations) {
        Some(clear) => {
            return Some(
                BatchPlan { kind: BatchKind::DocumentClear, tasks: uids_of(&same, clear + 1) },
            );
        },
        None => {},
    }
    match &first.kind {
        KindWithContent::DocumentAdditionOrUpdate { .. } => {
            let end = run_end(&same, Wanted::SameAddition, first, 0);
            Some(BatchPlan { kind: BatchKind::DocumentAddition, tasks: uids_of(&same, end) })
        },
        _ => {
            let end = run_end(&same, Wanted::DocumentDeletion, first, 0);
            Some(BatchPlan { kind: BatchKind::DocumentDeletion, tasks: uids_of(&same, end) })
        },
    }
}

/// With nothing enqueued there is no batch.
pub proof fn lemma_nothing_planned_of_nothing()
    ensures
        planned(Seq::<TaskView>::empty()) is None,
{
}

/// Every task that a batch claims is one of the enqueued tasks.
pub proof fn lemma_picked_are_enqueued(
    e: Seq<TaskView>,
    w: Wanted,
    reference: TaskView,
    n: int,
    i: int,
)
    requires
        0 <= n <= e.len(),
        0 <= i < picked(e, w, reference, n).len(),
    ensures
        exists|j: int|
            0 <= j < n && #[trigger] e[j] == picked(e, w, reference, n)[i] && accepts(
                w,
                reference,
                e[j],
            ),
    decreases n,
{
    if n > 0 {
        let rest = picked(e, w, reference, n - 1);
        if accepts(w, reference, e[n - 1]) && i == rest.len() {
            assert(e[n - 1] == picked(e, w, reference, n)[i]);
        } else {
            lemma_picked_are_enqueued(e, w, reference, n - 1, i);
            let j = choose|j: int|
                0 <= j < n - 1 && #[trigger] e[j] == picked(e, w, reference, n - 1)[i] && accepts(
                    w,
                    reference,
                    e[j],
                );
            assert(e[j] == picked(e, w, reference, n)[i]);
        }
    }
}

} // verus!

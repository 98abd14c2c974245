//! Helpers of the scheduler that work on single tasks and bitmaps.

use crate::bitmap::{
    below, bitmap_intersect_with, bitmap_len, bitmap_remove_from, lemma_u32_set_finite, members,
};
use crate::order::{
    char_ints, lemma_char_ints_injective, lemma_lex_total, lemma_lex_transitive, text_before,
    text_equal, text_less,
};
use crate::table::{within, Table};
use crate::tasks::{
    swaps_view, Details, DetailsView, Error, IndexSwap, KindView, KindWithContent, Task, TaskView,
};
use roaring::RoaringBitmap;
use vstd::prelude::*;

verus! {

/// The kind of a task once its references to tasks that are not older than itself
/// are taken out.
pub open spec fn clamped_kind(k: KindView, uid: u32) -> KindView {
    match k {
        KindView::TaskCancelation { query, tasks } => KindView::TaskCancelation {
            query,
            tasks: below(tasks, uid),
        },
        KindView::TaskDeletion { query, tasks } => KindView::TaskDeletion {
            query,
            tasks: below(tasks, uid),
        },
        _ => k,
    }
}

/// The tasks that a cancellation or a deletion targets.
pub open spec fn targets(k: KindView) -> Option<Set<u32>> {
    match k {
        KindView::TaskCancelation { tasks, .. } => Some(tasks),
        KindView::TaskDeletion { tasks, .. } => Some(tasks),
        _ => None,
    }
}

/// The details with the count of matched tasks set anew.
pub open spec fn recounted(d: Option<DetailsView>, matched: u64) -> Option<DetailsView> {
    match d {
        Some(DetailsView::TaskCancelation { matched_tasks, canceled_tasks, original_filter }) => Some(
            DetailsView::TaskCancelation { matched_tasks: matched, canceled_tasks, original_filter },
        ),
        Some(DetailsView::TaskDeletion { matched_tasks, deleted_tasks, original_filter }) => Some(
            DetailsView::TaskDeletion { matched_tasks: matched, deleted_tasks, original_filter },
        ),
        _ => d,
    }
}

/// The count of matched tasks that the details report, if they report one.
pub open spec fn matched_tasks(d: Option<DetailsView>) -> Option<u64> {
    match d {
        Some(DetailsView::TaskCancelation { matched_tasks, .. }) => Some(matched_tasks),
        Some(DetailsView::TaskDeletion { matched_tasks, .. }) => Some(matched_tasks),
        _ => None,
    }
}

/// A task once its references to tasks that are not older than itself are taken
/// out: a cancellation or deletion keeps the targets below its own identifier and
/// reports how many are left; any other task stays as it is.
pub open spec fn clamped(t: TaskView) -> TaskView {
    match targets(t.kind) {
        Some(tasks) => TaskView {
            kind: clamped_kind(t.kind, t.uid),
            details: recounted(t.details, below(tasks, t.uid).len() as u64),
            ..t
        },
        None => t,
    }
}

/// Clamping twice is clamping once.
pub proof fn lemma_clamped_idempotent(t: TaskView)
    ensures
        clamped(clamped(t)) == clamped(t),
{
    match targets(t.kind) {
        Some(tasks) => {
            assert(below(below(tasks, t.uid), t.uid) =~= below(tasks, t.uid));
        },
        None => {},
    }
}

/// After clamping, the details of a cancellation or deletion report exactly as many
/// matched tasks as the task targets, and no target is the task itself or a later one.
pub proof fn lemma_clamped_counts(t: TaskView)
    requires
        targets(t.kind) is Some,
    ensures
        targets(clamped(t).kind) is Some,
        forall|v: u32| targets(clamped(t).kind)->0.contains(v) ==> v < t.uid,
        matched_tasks(clamped(t).details) matches Some(n) ==> n as nat == targets(
            clamped(t).kind,
        )->0.len(),
{
    let kept = below(targets(t.kind)->0, t.uid);
    lemma_u32_set_finite(kept);
    lemma_u32_set_len_bound(kept);
}

/// A set of 32-bit integers has at most 2^32 members.
pub proof fn lemma_u32_set_len_bound(s: Set<u32>)
    ensures
        s.finite(),
        s.len() <= 0x1_0000_0000,
{
    lemma_u32_set_finite(s);
    let all = vstd::set_lib::set_int_range(0, 0x1_0000_0000);
    vstd::set_lib::lemma_int_range(0, 0x1_0000_0000);
    let image = all.map(|i: int| i as u32);
    all.lemma_map_finite(|i: int| i as u32);
    vstd::set_lib::lemma_map_size_bound(all, image, |i: int| i as u32);
    assert forall|v: u32| s.contains(v) implies image.contains(v) by {
        assert(all.contains(v as int));
        assert((v as int) as u32 == v);
    }
    vstd::set_lib::lemma_len_subset(s, image);
}

/// Remove references to task ids that are not lower than the id of the given task.
pub fn filter_out_references_to_newer_tasks(task: &mut Task)
    ensures
        final(task)@ == clamped(old(task)@),
{
    let uid = task.uid;
    let new_nbr_of_matched_tasks = match &mut task.kind {
        KindWithContent::TaskCancelation { tasks, .. } => {
            bitmap_remove_from(tasks, uid);
            bitmap_len(tasks)
        },
        KindWithContent::TaskDeletion { tasks, .. } => {
            bitmap_remove_from(tasks, uid);
            bitmap_len(tasks)
        },
        _ => {
            return ;
        },
    };
    proof {
        lemma_u32_set_len_bound(below(targets(old(task)@.kind)->0, uid));
    }
    match &mut task.details {
        Some(Details::TaskCancelation { matched_tasks, .. }) => {
            *matched_tasks = new_nbr_of_matched_tasks;
        },
        Some(Details::TaskDeletion { matched_tasks, .. }) => {
            *matched_tasks = new_nbr_of_matched_tasks;
        },
        _ => {},
    }
}

/// Whether a task qualifies under a window of time read from a table of times:
/// with no bound at all every task does, otherwise the task must be filed under a
/// time strictly between the bounds.
pub open spec fn in_window(
    table: &Table<i128>,
    id: u32,
    after: Option<i128>,
    before: Option<i128>,
) -> bool {
    (after is None && before is None) || exists|at: i128|
        within(at, after, before) && #[trigger] table.has(at, id)
}

/// No time lies strictly between a bound and itself.
pub proof fn lemma_empty_window(table: &Table<i128>, id: u32, bound: i128)
    ensures
        !in_window(table, id, Some(bound), Some(bound)),
{
}

/// Keeps of `ids` what is filed under a time strictly after `after` and strictly
/// before `before`; a bound that is not given does not bind.
pub fn keep_ids_within_datetimes(
    ids: &mut RoaringBitmap,
    table: &Table<i128>,
    after: Option<i128>,
    before: Option<i128>,
)
    requires
        table.wf(),
    ensures
        forall|id: u32|
            #[trigger] members(*final(ids)).contains(id) <==> members(*old(ids)).contains(id)
                && in_window(table, id, after, before),
        after is Some && after == before ==> members(*final(ids)) == Set::<u32>::empty(),
{
    if after.is_none() && before.is_none() {
        return ;
    }
    let collected = table.union_between(after, before);
    bitmap_intersect_with(ids, &collected);
    proof {
        assert forall|id: u32|
            #[trigger] members(*ids).contains(id) <==> members(*old(ids)).contains(id)
                && in_window(table, id, after, before) by {
            assert(members(collected).contains(id) <==> exists|at: i128|
                within(at, after, before) && #[trigger] table.has(at, id));
        }
        if after is Some && after == before {
            assert forall|id: u32| !members(*ids).contains(id) by {
                lemma_empty_window(table, id, after->0);
            }
            assert(members(*ids) =~= Set::<u32>::empty());
        }
    }
}

/// `page_size::get`: the size of a page of memory on this machine. Nothing is promised
/// of it.
#[verifier::external_body]
pub(crate) fn system_page_size() -> usize {
    page_size::get()
}

/// The greatest multiple of `page` that is not above `size`.
pub open spec fn rounded_down(size: int, page: int) -> int {
    size / page * page
}

/// Rounds `size` down to a multiple of `page`.
pub fn round_down_to_multiple(size: usize, page: usize) -> (r: usize)
    requires
        page > 0,
    ensures
        r == rounded_down(size as int, page as int),
        r <= size,
        r % page == 0,
        size - r < page,
{
    proof {
        vstd::arithmetic::div_mod::lemma_fundamental_div_mod(size as int, page as int);
        vstd::arithmetic::div_mod::lemma_mod_bound(size as int, page as int);
        vstd::arithmetic::div_mod::lemma_div_pos_is_pos(size as int, page as int);
        vstd::arithmetic::mul::lemma_mul_is_commutative(size as int / page as int, page as int);
        vstd::arithmetic::div_mod::lemma_mod_multiples_basic(size as int / page as int, page as int);
    }
    size / page * page
}

/// What clamping `size` gives where a page of memory holds `page` bytes: `size`
/// rounded down to a multiple of `page`, and `size` itself where no page size is
/// known.
pub open spec fn page_clamped(size: int, page: int) -> int {
    if page > 0 {
        rounded_down(size, page)
    } else {
        size
    }
}

/// Clamps `size` to a multiple of the page size `page`.
pub fn clamp_to_page(size: usize, page: usize) -> (r: usize)
    ensures
        r == page_clamped(size as int, page as int),
        r <= size,
{
    if page == 0 {
        size
    } else {
        round_down_to_multiple(size, page)
    }
}

/// Clamp the provided value to be a multiple of system page size.
///
/// The page size is the machine's, so the result is stated for whatever size the
/// system reports: it is what [`clamp_to_page`] gives for that size.
pub fn clamp_to_page_size(size: usize) -> (r: usize)
    ensures
        exists|page: usize| r == #[trigger] page_clamped(size as int, page as int),
        r <= size,
{
    clamp_to_page(size, system_page_size())
}

/// The name that stands where `name` stood once `a` and `b` have traded places.
pub open spec fn renamed(name: Seq<char>, a: Seq<char>, b: Seq<char>) -> Seq<char> {
    if name == a {
        b
    } else if name == b {
        a
    } else {
        name
    }
}

pub open spec fn renamed_swaps(
    swaps: Seq<(Seq<char>, Seq<char>)>,
    a: Seq<char>,
    b: Seq<char>,
) -> Seq<(Seq<char>, Seq<char>)> {
    swaps.map_values(|s: (Seq<char>, Seq<char>)| (renamed(s.0, a, b), renamed(s.1, a, b)))
}

/// The kind with every index name in it renamed.
pub open spec fn renamed_kind(k: KindView, a: Seq<char>, b: Seq<char>) -> KindView {
    match k {
        KindView::DocumentAdditionOrUpdate {
            index_uid,
            primary_key,
            method,
            content_file,
            documents_count,
            allow_index_creation,
        } => KindView::DocumentAdditionOrUpdate {
            index_uid: renamed(index_uid, a, b),
            primary_key,
            method,
            content_file,
            documents_count,
            allow_index_creation,
        },
        KindView::DocumentEdition { index_uid, filter_expr, function } => KindView::DocumentEdition {
            index_uid: renamed(index_uid, a, b),
            filter_expr,
            function,
        },
        KindView::DocumentDeletion { index_uid, documents_ids } => KindView::DocumentDeletion {
            index_uid: renamed(index_uid, a, b),
            documents_ids,
        },
        KindView::DocumentDeletionByFilter {
            index_uid,
            filter_expr,
        } => KindView::DocumentDeletionByFilter { index_uid: renamed(index_uid, a, b), filter_expr },
        KindView::DocumentClear { index_uid } => KindView::DocumentClear {
            index_uid: renamed(index_uid, a, b),
        },
        KindView::SettingsUpdate {
            index_uid,
            new_settings,
            is_deletion,
            allow_index_creation,
        } => KindView::SettingsUpdate {
            index_uid: renamed(index_uid, a, b),
            new_settings,
            is_deletion,
            allow_index_creation,
        },
        KindView::IndexDeletion { index_uid } => KindView::IndexDeletion {
            index_uid: renamed(index_uid, a, b),
        },
        KindView::IndexCreation { index_uid, primary_key } => KindView::IndexCreation {
            index_uid: renamed(index_uid, a, b),
            primary_key,
        },
        KindView::IndexUpdate { index_uid, primary_key } => KindView::IndexUpdate {
            index_uid: renamed(index_uid, a, b),
            primary_key,
        },
        KindView::IndexSwap { swaps } => KindView::IndexSwap { swaps: renamed_swaps(swaps, a, b) },
        _ => k,
    }
}

/// The details with every index name in them renamed.
pub open spec fn renamed_details(
    d: Option<DetailsView>,
    a: Seq<char>,
    b: Seq<char>,
) -> Option<DetailsView> {
    match d {
        Some(DetailsView::IndexSwap { swaps }) => Some(
            DetailsView::IndexSwap { swaps: renamed_swaps(swaps, a, b) },
        ),
        _ => d,
    }
}

fn rename(name: &mut String, swap: (&str, &str))
    ensures
        final(name)@ == renamed(old(name)@, swap.0@, swap.1@),
{
    if text_equal(name.as_str(), swap.0) {
        *name = swap.1.to_owned();
    } else if text_equal(name.as_str(), swap.1) {
        *name = swap.0.to_owned();
    }
}

fn rename_swaps(swaps: &mut Vec<IndexSwap>, swap: (&str, &str))
    ensures
        crate::tasks::swaps_view(final(swaps)@) == renamed_swaps(
            crate::tasks::swaps_view(old(swaps)@),
            swap.0@,
            swap.1@,
        ),
{
    let mut i: usize = 0;
    while i < swaps.len()
        invariant
            i <= swaps.len(),
            swaps.len() == old(swaps).len(),
            forall|j: int|
                0 <= j < i ==> (#[trigger] swaps[j])@ == (
                    renamed(old(swaps)[j]@.0, swap.0@, swap.1@),
                    renamed(old(swaps)[j]@.1, swap.0@, swap.1@),
                ),
            forall|j: int| i <= j < swaps.len() ==> (#[trigger] swaps[j]) == old(swaps)[j],
        decreases swaps.len() - i,
    {
        rename(&mut swaps[i].indexes.0, swap);
        rename(&mut swaps[i].indexes.1, swap);
        i += 1;
    }
    assert(crate::tasks::swaps_view(swaps@) =~= renamed_swaps(
        crate::tasks::swaps_view(old(swaps)@),
        swap.0@,
        swap.1@,
    ));
}

/// Rewrites every reference to an index in the task, in its kind and in its
/// details, as it reads once the two indexes of `swap` have traded places.
pub fn swap_index_uid_in_task(task: &mut Task, swap: (&str, &str))
    ensures
        final(task)@ == (TaskView {
            kind: renamed_kind(old(task)@.kind, swap.0@, swap.1@),
            details: renamed_details(old(task)@.details, swap.0@, swap.1@),
            ..old(task)@
        }),
{
    match &mut task.kind {
        KindWithContent::DocumentAdditionOrUpdate { index_uid, .. } => rename(index_uid, swap),
        KindWithContent::DocumentEdition { index_uid, .. } => rename(index_uid, swap),
        KindWithContent::DocumentDeletion { index_uid, .. } => rename(index_uid, swap),
        KindWithContent::DocumentDeletionByFilter { index_uid, .. } => rename(index_uid, swap),
        KindWithContent::DocumentClear { index_uid } => rename(index_uid, swap),
        KindWithContent::SettingsUpdate { index_uid, .. } => rename(index_uid, swap),
        KindWithContent::IndexDeletion { index_uid } => rename(index_uid, swap),
        KindWithContent::IndexCreation { index_uid, .. } => rename(index_uid, swap),
        KindWithContent::IndexUpdate { index_uid, .. } => rename(index_uid, swap),
        KindWithContent::IndexSwap { swaps } => rename_swaps(swaps, swap),
        KindWithContent::TaskCancelation { .. }
        | KindWithContent::TaskDeletion { .. }
        | KindWithContent::DumpCreation { .. }
        | KindWithContent::SnapshotCreation => (),
    }
    match &mut task.details {
        Some(Details::IndexSwap { swaps }) => rename_swaps(swaps, swap),
        _ => {},
    }
}

/// The index names of a list of swaps, in the order in which the list names them.
pub open spec fn swap_name_seq(swaps: Seq<(Seq<char>, Seq<char>)>) -> Seq<Seq<char>> {
    Seq::new(
        2 * swaps.len(),
        |i: int|
            if i % 2 == 0 {
                swaps[i / 2].0
            } else {
                swaps[i / 2].1
            },
    )
}

/// The index names that the swaps of a task name, in order; none for another task.
pub open spec fn swapped_names(k: KindView) -> Seq<Seq<char>> {
    match k {
        KindView::IndexSwap { swaps } => swap_name_seq(swaps),
        _ => Seq::empty(),
    }
}

/// The name `n` stands at two places of the list, the later of them below `upto`.
pub open spec fn occurs_twice(names: Seq<Seq<char>>, n: Seq<char>, upto: int) -> bool {
    exists|i: int, j: int|
        0 <= i < j < upto && j <= names.len() && #[trigger] names[i] == n && #[trigger] names[j]
            == n
}

/// The texts are in strictly ascending order.
pub open spec fn sorted_texts(v: Seq<String>) -> bool {
    forall|i: int, j: int| 0 <= i < j < v.len() ==> text_less((#[trigger] v[i])@, (#[trigger] v[j])@)
}

pub open spec fn holds_text(v: Seq<String>, n: Seq<char>) -> bool {
    exists|i: int| 0 <= i < v.len() && (#[trigger] v[i])@ == n
}

fn insert_sorted(texts: &mut Vec<String>, name: &String)
    requires
        sorted_texts(old(texts)@),
    ensures
        sorted_texts(final(texts)@),
        forall|n: Seq<char>|
            #[trigger] holds_text(final(texts)@, n) <==> holds_text(old(texts)@, n) || n == name@,
        final(texts).len() == old(texts).len() + (if holds_text(old(texts)@, name@) {
            0int
        } else {
            1int
        }),
{
    let mut i: usize = 0;
    while i < texts.len()
        invariant
            i <= texts.len(),
            *texts == *old(texts),
            sorted_texts(texts@),
            forall|j: int| 0 <= j < i ==> text_less((#[trigger] texts[j])@, name@),
        ensures
            i < texts.len() ==> !text_less(texts[i as int]@, name@) && texts[i as int]@ != name@,
        decreases texts.len() - i,
    {
        if text_equal(texts[i].as_str(), name.as_str()) {
            proof {
                assert(texts[i as int]@ == name@);
            }
            return ;
        }
        if !text_before(texts[i].as_str(), name.as_str()) {
            break ;
        }
        i += 1;
    }
    proof {
        if i < texts.len() {
            lemma_lex_total(char_ints(texts[i as int]@), char_ints(name@));
            if char_ints(texts[i as int]@) == char_ints(name@) {
                lemma_char_ints_injective(texts[i as int]@, name@);
            }
            assert(text_less(name@, texts[i as int]@));
            assert forall|j: int| i <= j < texts.len() implies text_less(
                name@,
                (#[trigger] texts[j])@,
            ) by {
                if i < j {
                    lemma_lex_transitive(
                        char_ints(name@),
                        char_ints(texts[i as int]@),
                        char_ints(texts[j]@),
                    );
                }
            }
        }
        assert(!holds_text(texts@, name@)) by {
            if holds_text(texts@, name@) {
                let j = choose|j: int| 0 <= j < texts.len() && (#[trigger] texts[j])@ == name@;
                crate::order::lemma_lex_irreflexive(char_ints(name@));
            }
        }
    }
    let ghost before = texts@;
    texts.insert(i, name.clone());
    proof {
        let after = texts@;
        assert(after.len() == before.len() + 1);
        assert forall|a: int, b: int| 0 <= a < b < after.len() implies text_less(
            (#[trigger] after[a])@,
            (#[trigger] after[b])@,
        ) by {
            let a0 = if a < i { a } else { a - 1 };
            let b0 = if b < i { b } else { b - 1 };
            if a == i {
                assert(after[b] == before[b0]);
            } else if b == i {
                assert(after[a] == before[a0]);
            } else {
                assert(after[a] == before[a0]);
                assert(after[b] == before[b0]);
            }
        }
        assert forall|n: Seq<char>|
            #[trigger] holds_text(after, n) <==> holds_text(before, n) || n == name@ by {
            if holds_text(before, n) {
                let j = choose|j: int| 0 <= j < before.len() && (#[trigger] before[j])@ == n;
                let j1 = if j < i { j } else { j + 1 };
                assert(after[j1]@ == n);
            }
            if n == name@ {
                assert(after[i as int]@ == n);
            }
            if holds_text(after, n) {
                let j = choose|j: int| 0 <= j < after.len() && (#[trigger] after[j])@ == n;
                if j != i {
                    let j0 = if j < i { j } else { j - 1 };
                    assert(before[j0]@ == n);
                }
            }
        }
    }
}

/// Checks that no index name occurs twice in the swaps of one task.
///
/// A task of another kind passes. Where one name occurs more than once, the error
/// names it; where several do, the error lists them in ascending order.
pub fn check_index_swap_validity(task: &Task) -> (r: Result<(), Error>)
    ensures
        match r {
            Ok(()) => forall|n: Seq<char>|
                !occurs_twice(
                    swapped_names(task@.kind),
                    n,
                    swapped_names(task@.kind).len() as int,
                ),
            Err(Error::SwapDuplicateIndexFound(name)) => forall|n: Seq<char>|
                occurs_twice(swapped_names(task@.kind), n, swapped_names(task@.kind).len() as int)
                    <==> n == name@,
            Err(Error::SwapDuplicateIndexesFound(names)) => names.len() >= 2 && sorted_texts(
                names@,
            ) && forall|n: Seq<char>|
                occurs_twice(swapped_names(task@.kind), n, swapped_names(task@.kind).len() as int)
                    <==> holds_text(names@, n),
            Err(_) => false,
        },
{
    let swaps = match &task.kind {
        KindWithContent::IndexSwap { swaps } => swaps,
        _ => {
            return Ok(());
        },
    };
    let ghost all = swapped_names(task@.kind);
    let mut names: Vec<&String> = Vec::new();
    let mut k: usize = 0;
    while k < swaps.len()
        invariant
            k <= swaps.len(),
            names.len() == 2 * k,
            all == swap_name_seq(swaps_view(swaps@)),
            forall|i: int| 0 <= i < names.len() ==> (#[trigger] names[i])@ == all[i],
        decreases swaps.len() - k,
    {
        names.push(&swaps[k].indexes.0);
        names.push(&swaps[k].indexes.1);
        k += 1;
    }
    assert(names.len() == all.len());
    let mut duplicates: Vec<String> = Vec::new();
    let mut j: usize = 0;
    while j < names.len()
        invariant
            j <= names.len(),
            names.len() == all.len(),
            forall|i: int| 0 <= i < names.len() ==> (#[trigger] names[i])@ == all[i],
            sorted_texts(duplicates@),
            forall|n: Seq<char>| occurs_twice(all, n, j as int) <==> holds_text(duplicates@, n),
        decreases names.len() - j,
    {
        let mut found = false;
        let mut i: usize = 0;
        while i < j
            invariant
                i <= j < names.len(),
                names.len() == all.len(),
                forall|i: int| 0 <= i < names.len() ==> (#[trigger] names[i])@ == all[i],
                found <==> exists|p: int| 0 <= p < i && #[trigger] all[p] == all[j as int],
            decreases j - i,
        {
            if *names[i] == *names[j] {
                assert(all[i as int] == all[j as int]);
                found = true;
            }
            i += 1;
        }
        let ghost before = duplicates@;
        if found {
            insert_sorted(&mut duplicates, names[j]);
        }
        proof {
            assert forall|n: Seq<char>| occurs_twice(all, n, j + 1) <==> holds_text(
                duplicates@,
                n,
            ) by {
                if occurs_twice(all, n, j + 1) {
                    let (a, b) = choose|a: int, b: int|
                        0 <= a < b < j + 1 && b <= all.len() && #[trigger] all[a] == n
                            && #[trigger] all[b] == n;
                    if b < j {
                        assert(occurs_twice(all, n, j as int));
                    } else {
                        assert(all[a] == all[j as int]);
                        assert(found);
                    }
                }
                if holds_text(before, n) {
                    assert(occurs_twice(all, n, j as int));
                    let (a, b) = choose|a: int, b: int|
                        0 <= a < b < j && b <= all.len() && #[trigger] all[a] == n
                            && #[trigger] all[b] == n;
                    assert(occurs_twice(all, n, j + 1));
                }
                if found && n == all[j as int] {
                    let p = choose|p: int| 0 <= p < j && #[trigger] all[p] == all[j as int];
                    assert(all[p] == n && all[j as int] == n);
                    assert(occurs_twice(all, n, j + 1));
                }
            }
        }
        j += 1;
    }
    if duplicates.len() == 0 {
        proof {
            assert forall|n: Seq<char>| !occurs_twice(all, n, all.len() as int) by {
                if holds_text(duplicates@, n) {
                }
            }
        }
        Ok(())
    } else if duplicates.len() == 1 {
        let ghost held = duplicates@;
        let name = duplicates.remove(0);
        proof {
            assert(held[0] == name);
            assert forall|n: Seq<char>| occurs_twice(all, n, all.len() as int) <==> n == name@ by {
                if holds_text(held, n) {
                    let i = choose|i: int| 0 <= i < held.len() && (#[trigger] held[i])@ == n;
                    assert(i == 0);
                }
                if n == name@ {
                    assert(held[0]@ == n);
                }
            }
        }
        Err(Error::SwapDuplicateIndexFound(name))
    } else {
        Err(Error::SwapDuplicateIndexesFound(duplicates))
    }
}

/// One end of a range.
#[derive(Clone, Copy, Debug, PartialEq, Eq, Hash)]
pub enum Bound<T> {
    /// The range reaches up to the value and holds it.
    Included(T),
    /// The range reaches up to the value and does not hold it.
    Excluded(T),
    /// The range has no end on this side.
    Unbounded,
}

/// Maps the value of a bound, and keeps what kind of bound it is.
pub fn map_bound<T, U, F: FnOnce(T) -> U>(bound: Bound<T>, map: F) -> (r: Bound<U>)
    requires
        bound matches Bound::Included(x) ==> map.requires((x,)),
        bound matches Bound::Excluded(x) ==> map.requires((x,)),
    ensures
        match bound {
            Bound::Included(x) => r matches Bound::Included(y) && map.ensures((x,), y),
            Bound::Excluded(x) => r matches Bound::Excluded(y) && map.ensures((x,), y),
            Bound::Unbounded => r is Unbounded,
        },
{
    match bound {
        Bound::Included(x) => Bound::Included(map(x)),
        Bound::Excluded(x) => Bound::Excluded(map(x)),
        Bound::Unbounded => Bound::Unbounded,
    }
}

/// Whether `is_good` says yes exactly of the values up to `threshold`.
pub open spec fn good_up_to<F: Fn(usize) -> bool>(is_good: F, threshold: usize) -> bool {
    forall|x: usize, r: bool| #[trigger] is_good.ensures((x,), r) ==> r == (x <= threshold)
}

/// Looks for the greatest value that is good, starting from `start_point`, by
/// doubling while the values are good and halving while they are bad, and then
/// by bisection.
///
/// The test must say yes exactly of the values up to some threshold; the search
/// stays below four times the greater of the threshold and the starting point,
/// which must fit. From a starting point above zero the result is the threshold.
/// From zero the search ends at once, with zero.
pub fn dichotomic_search<F: Fn(usize) -> bool>(start_point: usize, is_good: F) -> (r: usize)
    requires
        forall|x: usize| #[trigger] is_good.requires((x,)),
        start_point <= usize::MAX / 4,
        exists|threshold: usize| threshold <= usize::MAX / 4 && good_up_to(is_good, threshold),
    ensures
        forall|threshold: usize|
            good_up_to(is_good, threshold) ==> r == (if start_point == 0 {
                0
            } else {
                threshold
            }),
{
    let ghost t = choose|threshold: usize|
        threshold <= usize::MAX / 4 && good_up_to(is_good, threshold);
    let mut biggest_good: Option<usize> = None;
    let mut smallest_bad: Option<usize> = None;
    let mut current: usize = start_point;
    loop
        invariant_except_break
            forall|x: usize| #[trigger] is_good.requires((x,)),
            good_up_to(is_good, t),
            t <= usize::MAX / 4,
            start_point <= usize::MAX / 4,
            current <= usize::MAX / 2,
            current > 0 || (biggest_good is None && smallest_bad is None && start_point == 0),
            biggest_good matches Some(g) ==> 0 < g <= t && g <= current && forall|th: usize|
                good_up_to(is_good, th) ==> g <= th,
            smallest_bad matches Some(b) ==> t < b && b <= usize::MAX / 2 && current < b
                && forall|th: usize| good_up_to(is_good, th) ==> th < b,
            biggest_good is None && smallest_bad is None ==> current == start_point,
            biggest_good is Some || smallest_bad is Some ==> start_point > 0,
            biggest_good is Some && smallest_bad is None ==> current == 2 * biggest_good->0,
            biggest_good is Some && smallest_bad is Some ==> current == (biggest_good->0
                + smallest_bad->0) / 2 && biggest_good->0 < current,
            biggest_good is None && smallest_bad is Some ==> current == smallest_bad->0 / 2,
        ensures
            forall|threshold: usize|
                good_up_to(is_good, threshold) ==> current == (if start_point == 0 {
                    0
                } else {
                    threshold
                }),
        decreases
                (if biggest_good is None && smallest_bad is None {
                    3int
                } else if smallest_bad is None || biggest_good is None {
                    2int
                } else {
                    1int
                }),
                (if smallest_bad is None {
                    (usize::MAX - current) as int
                } else if biggest_good is None {
                    current as int
                } else {
                    (smallest_bad->0 - biggest_good->0) as int
                }),
    {
        let good = is_good(current);
        assert(good == (current <= t));
        let ghost asked = current;
        assert forall|th: usize| good_up_to(is_good, th) implies good == (asked <= th) by {
            assert(is_good.ensures((asked,), good));
        }
        match (biggest_good, smallest_bad, good) {
            (None, None, false) => {
                smallest_bad = Some(current);
                current = current / 2;
            },
            (None, None, true) => {
                biggest_good = Some(current);
                current = current * 2;
            },
            (None, Some(bad), true) => {
                biggest_good = Some(current);
                current = (current + bad) / 2;
            },
            (None, Some(_), false) => {
                smallest_bad = Some(current);
                current = current / 2;
            },
            (Some(_), None, true) => {
                biggest_good = Some(current);
                current = current * 2;
            },
            (Some(good_one), None, false) => {
                smallest_bad = Some(current);
                current = (good_one + current) / 2;
            },
            (Some(_), Some(bad), true) => {
                biggest_good = Some(current);
                current = (bad + current) / 2;
            },
            (Some(good_one), Some(_), false) => {
                smallest_bad = Some(current);
                current = (good_one + current) / 2;
            },
        }
        if current == 0 {
            proof {
                if start_point != 0 {
                    assert(smallest_bad is Some);
                }
            }
            break ;
        }
        let stop = match (smallest_bad, biggest_good) {
            (Some(_), Some(good_one)) => good_one >= current,
            _ => false,
        };
        if stop {
            proof {
                let g = biggest_good->0;
                let b = smallest_bad->0;
                assert(b <= g + 1);
                assert forall|th: usize| good_up_to(is_good, th) implies current == th by {
                    assert(g <= th < b);
                }
            }
            break ;
        }
    }
    current
}

} // verus!

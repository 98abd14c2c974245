//! The secondary indices over tasks, kept together.
//!
//! Each table answers one question about a task: its status, its kind, the
//! indexes it refers to, who canceled it, its three timestamps, and the batch that
//! claimed it. [`TaskIndices::agrees`] says when the tables tell the truth about one
//! task; [`TaskIndices::file`] and [`TaskIndices::unfile`] are the only ways in and out.

use crate::table::Table;
use crate::tasks::{Kind, Status, Task, TaskView};
use vstd::prelude::*;

verus! {

pub struct TaskIndices {
    pub status: Table<Status>,
    pub kind: Table<Kind>,
    pub index_tasks: Table<String>,
    pub canceled_by: Table<u32>,
    pub enqueued_at: Table<i128>,
    pub started_at: Table<i128>,
    pub finished_at: Table<i128>,
    pub batch_to_tasks: Table<u32>,
}

impl TaskIndices {
    pub open spec fn wf(&self) -> bool {
        &&& self.status.wf()
        &&& self.kind.wf()
        &&& self.index_tasks.wf()
        &&& self.canceled_by.wf()
        &&& self.enqueued_at.wf()
        &&& self.started_at.wf()
        &&& self.finished_at.wf()
        &&& self.batch_to_tasks.wf()
    }

    /// The tables file `uid` exactly as the record `t` says, or nowhere if there is no record.
    pub open spec fn agrees(&self, uid: u32, t: Option<TaskView>) -> bool {
        &&& forall|s: Status| #[trigger]
            self.status.has(s, uid) <==> (t matches Some(v) && v.status == s)
        &&& forall|k: Kind| #[trigger]
            self.kind.has(k, uid) <==> (t matches Some(v) && v.kind.as_kind() == k)
        &&& forall|n: Seq<char>| #[trigger]
            self.index_tasks.has(n, uid) <==> (t matches Some(v) && v.kind.indexes().contains(n))
        &&& forall|c: u32| #[trigger]
            self.canceled_by.has(c, uid) <==> (t matches Some(v) && v.canceled_by == Some(c))
        &&& forall|at: i128| #[trigger]
            self.enqueued_at.has(at, uid) <==> (t matches Some(v) && v.enqueued_at == at)
        &&& forall|at: i128| #[trigger]
            self.started_at.has(at, uid) <==> (t matches Some(v) && v.started_at == Some(at))
        &&& forall|at: i128| #[trigger]
            self.finished_at.has(at, uid) <==> (t matches Some(v) && v.finished_at == Some(at))
        &&& forall|b: u32| #[trigger]
            self.batch_to_tasks.has(b, uid) <==> (t matches Some(v) && v.batch_uid == Some(b))
    }

    /// The two sets of tables say the same of every identifier but `uid`.
    pub open spec fn same_except(&self, other: &TaskIndices, uid: u32) -> bool {
        &&& forall|k: Status, id: u32|
            id != uid ==> #[trigger] self.status.has(k, id) == other.status.has(k, id)
        &&& forall|k: Kind, id: u32|
            id != uid ==> #[trigger] self.kind.has(k, id) == other.kind.has(k, id)
        &&& forall|k: Seq<char>, id: u32|
            id != uid ==> #[trigger] self.index_tasks.has(k, id) == other.index_tasks.has(k, id)
        &&& forall|k: u32, id: u32|
            id != uid ==> #[trigger] self.canceled_by.has(k, id) == other.canceled_by.has(k, id)
        &&& forall|k: i128, id: u32|
            id != uid ==> #[trigger] self.enqueued_at.has(k, id) == other.enqueued_at.has(k, id)
        &&& forall|k: i128, id: u32|
            id != uid ==> #[trigger] self.started_at.has(k, id) == other.started_at.has(k, id)
        &&& forall|k: i128, id: u32|
            id != uid ==> #[trigger] self.finished_at.has(k, id) == other.finished_at.has(k, id)
        &&& forall|k: u32, id: u32|
            id != uid ==> #[trigger] self.batch_to_tasks.has(k, id) == other.batch_to_tasks.has(
                k,
                id,
            )
    }

    pub fn new() -> (r: Self)
        ensures
            r.wf(),
            forall|uid: u32| r.agrees(uid, None),
    {
        TaskIndices {
            status: Table::new(),
            kind: Table::new(),
            index_tasks: Table::new(),
            canceled_by: Table::new(),
            enqueued_at: Table::new(),
            started_at: Table::new(),
            finished_at: Table::new(),
            batch_to_tasks: Table::new(),
        }
    }

    /// Files a task that the tables do not know yet.
    pub fn file(&mut self, task: &Task)
        requires
            old(self).wf(),
            old(self).agrees(task.uid, None),
        ensures
            final(self).wf(),
            final(self).agrees(task.uid, Some(task@)),
            final(self).same_except(old(self), task.uid),
    {
        let uid = task.uid;
        self.status.insert(&task.status, uid);
        let kind = task.kind.as_kind();
        self.kind.insert(&kind, uid);
        let names = task.indexes();
        let ghost index_before = self.index_tasks;
        let ghost mid = *self;
        let mut i: usize = 0;
        while i < names.len()
            invariant
                i <= names.len(),
                self.index_tasks.wf(),
                self.status == mid.status,
                self.kind == mid.kind,
                self.canceled_by == mid.canceled_by,
                self.enqueued_at == mid.enqueued_at,
                self.started_at == mid.started_at,
                self.finished_at == mid.finished_at,
                self.batch_to_tasks == mid.batch_to_tasks,
                forall|n: Seq<char>, id: u32|
                    #[trigger] self.index_tasks.has(n, id) == (index_before.has(n, id) || (id == uid
                        && exists|j: int| 0 <= j < i && (#[trigger] names[j])@ == n)),
            decreases names.len() - i,
        {
            let ghost step_before = self.index_tasks;
            self.index_tasks.insert(names[i], uid);
            proof {
                assert forall|n: Seq<char>, id: u32|
                    #[trigger] self.index_tasks.has(n, id) == (index_before.has(n, id) || (id == uid
                        && exists|j: int| 0 <= j < i + 1 && (#[trigger] names[j])@ == n)) by {
                    if id == uid && n == names[i as int]@ {
                        assert(names[i as int]@ == n);
                    }
                    if exists|j: int| 0 <= j < i + 1 && (#[trigger] names[j])@ == n {
                        let j = choose|j: int| 0 <= j < i + 1 && (#[trigger] names[j])@ == n;
                        if j < i {
                            assert(names[j]@ == n);
                        }
                    }
                }
            }
            i += 1;
        }
        match task.canceled_by {
            Some(c) => {
                self.canceled_by.insert(&c, uid);
            },
            None => {},
        }
        self.enqueued_at.insert(&task.enqueued_at, uid);
        match task.started_at {
            Some(at) => {
                self.started_at.insert(&at, uid);
            },
            None => {},
        }
        match task.finished_at {
            Some(at) => {
                self.finished_at.insert(&at, uid);
            },
            None => {},
        }
        match task.batch_uid {
            Some(b) => {
                self.batch_to_tasks.insert(&b, uid);
            },
            None => {},
        }
        proof {
            assert forall|n: Seq<char>| #[trigger]
                self.index_tasks.has(n, uid) <==> task@.kind.indexes().contains(n) by {
                if task@.kind.indexes().contains(n) {
                    let j = choose|j: int| 0 <= j < names.len() && (#[trigger] names[j])@ == n;
                    assert(names[j]@ == n);
                }
            }
        }
    }

    /// Takes a task out of every table that files it.
    pub fn unfile(&mut self, task: &Task)
        requires
            old(self).wf(),
            old(self).agrees(task.uid, Some(task@)),
        ensures
            final(self).wf(),
            final(self).agrees(task.uid, None),
            final(self).same_except(old(self), task.uid),
    {
        let uid = task.uid;
        self.status.remove(&task.status, uid);
        let kind = task.kind.as_kind();
        self.kind.remove(&kind, uid);
        let names = task.indexes();
        let ghost index_before = self.index_tasks;
        let ghost mid = *self;
        let mut i: usize = 0;
        while i < names.len()
            invariant
                i <= names.len(),
                self.index_tasks.wf(),
                self.status == mid.status,
                self.kind == mid.kind,
                self.canceled_by == mid.canceled_by,
                self.enqueued_at == mid.enqueued_at,
                self.started_at == mid.started_at,
                self.finished_at == mid.finished_at,
                self.batch_to_tasks == mid.batch_to_tasks,
                forall|n: Seq<char>, id: u32|
                    #[trigger] self.index_tasks.has(n, id) == (index_before.has(n, id) && !(id
                        == uid && exists|j: int| 0 <= j < i && (#[trigger] names[j])@ == n)),
            decreases names.len() - i,
        {
            self.index_tasks.remove(names[i], uid);
            proof {
                assert forall|n: Seq<char>, id: u32|
                    #[trigger] self.index_tasks.has(n, id) == (index_before.has(n, id) && !(id
                        == uid && exists|j: int| 0 <= j < i + 1 && (#[trigger] names[j])@ == n)) by {
                    if id == uid && n == names[i as int]@ {
                        assert(names[i as int]@ == n);
                    }
                    if exists|j: int| 0 <= j < i + 1 && (#[trigger] names[j])@ == n {
                        let j = choose|j: int| 0 <= j < i + 1 && (#[trigger] names[j])@ == n;
                        if j < i {
                            assert(names[j]@ == n);
                        }
                    }
                }
            }
            i += 1;
        }
        match task.canceled_by {
            Some(c) => {
                self.canceled_by.remove(&c, uid);
            },
            None => {},
        }
        self.enqueued_at.remove(&task.enqueued_at, uid);
        match task.started_at {
            Some(at) => {
                self.started_at.remove(&at, uid);
            },
            None => {},
        }
        match task.finished_at {
            Some(at) => {
                self.finished_at.remove(&at, uid);
            },
            None => {},
        }
        match task.batch_uid {
            Some(b) => {
                self.batch_to_tasks.remove(&b, uid);
            },
            None => {},
        }
        proof {
            assert forall|n: Seq<char>| !#[trigger] self.index_tasks.has(n, uid) by {
                if index_before.has(n, uid) {
                    assert(task@.kind.indexes().contains(n));
                    let j = choose|j: int| 0 <= j < names.len() && (#[trigger] names[j])@ == n;
                    assert(names[j]@ == n);
                }
            }
        }
    }
}

} // verus!

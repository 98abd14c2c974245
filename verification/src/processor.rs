//! The processor: what to do next, given what just happened.
//!
//! The processor alone writes to the queue. It waits until it is woken, asks the
//! batcher for a batch, claims the tasks of the batch, processes them with no
//! transaction held, and records the outcome. A request to cancel that arrives
//! while a batch is processed raises the stop flag, which the workers read between
//! two steps; the batch is then rolled back and its tasks are canceled.

use crate::tasks::{Code, ErrorClass, ResponseError, Status, Task, TaskId, TaskView};
use vstd::prelude::*;

verus! {

/// Where the processor stands.
#[derive(Clone, Copy, Debug, PartialEq, Eq, Structural, Hash)]
pub enum ProcessorState {
    /// Nothing to do until a signal or the timeout.
    Waiting,
    /// The batcher was asked for a batch.
    Planning,
    /// The tasks of the batch are being marked as processing.
    Claiming,
    /// The batch is being processed; `stopping` says whether the stop flag is raised.
    Processing { stopping: bool },
    /// The outcome of the batch is being written.
    Recording,
}

/// What just happened.
#[derive(Clone, Copy, Debug, PartialEq, Eq, Structural, Hash)]
pub enum Event {
    /// Someone enqueued a task.
    Wake,
    /// Nobody did for a while.
    Timeout,
    /// The batcher found nothing to process.
    NoBatch,
    /// The batcher chose a batch.
    BatchPlanned,
    /// The tasks of the batch are marked as processing.
    TasksClaimed,
    /// The tasks of the batch could not be marked.
    ClaimFailed,
    /// A cancellation of a task of the batch in progress was enqueued.
    CancelRequested,
    /// The batch was processed.
    BatchProcessed,
    /// The batch failed.
    BatchFailed,
    /// The workers saw the stop flag and the batch was rolled back.
    BatchStopped,
    /// The outcome is on record.
    OutcomeRecorded,
    /// The outcome could not be put on record.
    RecordFailed,
}

/// What to do next.
#[derive(Clone, Copy, Debug, PartialEq, Eq, Structural, Hash)]
pub enum Action {
    /// Wait for a signal or for the timeout.
    Sleep,
    /// Ask the batcher for the next batch.
    PlanBatch,
    /// Mark the tasks of the batch as processing.
    ClaimTasks,
    /// Process the batch, holding no transaction on the queue.
    ProcessBatch,
    /// Raise the stop flag.
    RaiseStopFlag,
    /// Put the outcome on record: the tasks succeeded.
    RecordSuccess,
    /// Put the outcome on record: the tasks failed, all with the same error.
    RecordFailure,
    /// Put the outcome on record: the tasks were canceled.
    RecordCancelation,
    /// Go on with what is being done.
    Continue,
}

/// The state that follows, and what to do in it.
pub open spec fn step(state: ProcessorState, event: Event) -> (ProcessorState, Action) {
    match (state, event) {
        (ProcessorState::Waiting, Event::Wake) => (ProcessorState::Planning, Action::PlanBatch),
        (ProcessorState::Waiting, Event::Timeout) => (ProcessorState::Planning, Action::PlanBatch),
        (ProcessorState::Planning, Event::NoBatch) => (ProcessorState::Waiting, Action::Sleep),
        (ProcessorState::Planning, Event::BatchPlanned) => (
            ProcessorState::Claiming,
            Action::ClaimTasks,
        ),
        (ProcessorState::Claiming, Event::TasksClaimed) => (
            ProcessorState::Processing { stopping: false },
            Action::ProcessBatch,
        ),
        (ProcessorState::Claiming, Event::ClaimFailed) => (ProcessorState::Waiting, Action::Sleep),
        (ProcessorState::Processing { stopping: false }, Event::CancelRequested) => (
            ProcessorState::Processing { stopping: true },
            Action::RaiseStopFlag,
        ),
        (ProcessorState::Processing { .. }, Event::BatchProcessed) => (
            ProcessorState::Recording,
            Action::RecordSuccess,
        ),
        (ProcessorState::Processing { .. }, Event::BatchFailed) => (
            ProcessorState::Recording,
            Action::RecordFailure,
        ),
        (ProcessorState::Processing { stopping: true }, Event::BatchStopped) => (
            ProcessorState::Recording,
            Action::RecordCancelation,
        ),
        (ProcessorState::Recording, Event::OutcomeRecorded) => (
            ProcessorState::Planning,
            Action::PlanBatch,
        ),
        (ProcessorState::Recording, Event::RecordFailed) => (ProcessorState::Waiting, Action::Sleep),
        _ => (state, Action::Continue),
    }
}

/// Decides what the processor does next.
pub fn tick(state: ProcessorState, event: Event) -> (r: (ProcessorState, Action))
    ensures
        r == step(state, event),
{
    match (state, event) {
        (ProcessorState::Waiting, Event::Wake) => (ProcessorState::Planning, Action::PlanBatch),
        (ProcessorState::Waiting, Event::Timeout) => (ProcessorState::Planning, Action::PlanBatch),
        (ProcessorState::Planning, Event::NoBatch) => (ProcessorState::Waiting, Action::Sleep),
        (ProcessorState::Planning, Event::BatchPlanned) => (
            ProcessorState::Claiming,
            Action::ClaimTasks,
        ),
        (ProcessorState::Claiming, Event::TasksClaimed) => (
            ProcessorState::Processing { stopping: false },
            Action::ProcessBatch,
        ),
        (ProcessorState::Claiming, Event::ClaimFailed) => (ProcessorState::Waiting, Action::Sleep),
        (ProcessorState::Processing { stopping: false }, Event::CancelRequested) => (
            ProcessorState::Processing { stopping: true },
            Action::RaiseStopFlag,
        ),
        (ProcessorState::Processing { .. }, Event::BatchProcessed) => (
            ProcessorState::Recording,
            Action::RecordSuccess,
        ),
        (ProcessorState::Processing { .. }, Event::BatchFailed) => (
            ProcessorState::Recording,
            Action::RecordFailure,
        ),
        (ProcessorState::Processing { stopping: true }, Event::BatchStopped) => (
            ProcessorState::Recording,
            Action::RecordCancelation,
        ),
        (ProcessorState::Recording, Event::OutcomeRecorded) => (
            ProcessorState::Planning,
            Action::PlanBatch,
        ),
        (ProcessorState::Recording, Event::RecordFailed) => (ProcessorState::Waiting, Action::Sleep),
        _ => (state, Action::Continue),
    }
}

/// The queue is written only while tasks are claimed and while an outcome is
/// recorded, never while a batch is processed; a batch is processed only after its
/// tasks were claimed, and an outcome is recorded only after processing; a
/// cancellation is recorded only after the stop flag was raised.
pub proof fn lemma_processor_order(state: ProcessorState, event: Event)
    ensures
        step(state, event).1 == Action::ProcessBatch ==> state == ProcessorState::Claiming,
        step(state, event).1 == Action::ClaimTasks ==> state == ProcessorState::Planning,
        (step(state, event).1 == Action::RecordSuccess || step(state, event).1
            == Action::RecordFailure || step(state, event).1 == Action::RecordCancelation)
            ==> state is Processing && step(state, event).0 == ProcessorState::Recording,
        step(state, event).1 == Action::RecordCancelation ==> state == (
        ProcessorState::Processing { stopping: true }),
        step(state, event).1 == Action::RaiseStopFlag ==> state == (
        ProcessorState::Processing { stopping: false }),
        state is Processing && step(state, event).0 is Processing ==> step(state, event).1
            != Action::ClaimTasks,
{
}

/// How a batch ended.
pub enum BatchOutcome {
    /// The operation went through.
    Succeeded,
    /// The operation failed: every task of the batch fails with this error.
    Failed(ResponseError),
    /// The batch was rolled back on behalf of a cancellation.
    Canceled { by: TaskId },
}

/// The record of a task of a batch that ended with success.
pub open spec fn succeeded(t: TaskView) -> TaskView {
    TaskView { status: Status::Succeeded, error: None, ..t }
}

/// The record of a task of a batch that failed.
pub open spec fn failed(t: TaskView, code: Code, message: Seq<char>) -> TaskView {
    TaskView { status: Status::Failed, error: Some((code, message)), ..t }
}

/// The record of a task of a batch that was rolled back on behalf of a
/// cancellation: it is canceled, and carries no error.
pub open spec fn stopped(t: TaskView, by: TaskId) -> TaskView {
    TaskView { status: Status::Canceled, canceled_by: Some(by), error: None, ..t }
}

/// The record of a task once its batch ended.
pub open spec fn concluded(t: TaskView, outcome: BatchOutcome) -> TaskView {
    match outcome {
        BatchOutcome::Succeeded => succeeded(t),
        BatchOutcome::Failed(e) => failed(t, e.code, e.message@),
        BatchOutcome::Canceled { by } => stopped(t, by),
    }
}

/// Gives every task of a batch the status that the outcome of the batch calls for.
pub fn conclude(tasks: &mut Vec<Task>, outcome: &BatchOutcome)
    ensures
        final(tasks).len() == old(tasks).len(),
        forall|i: int|
            0 <= i < old(tasks).len() ==> (#[trigger] final(tasks)[i])@ == concluded(
                old(tasks)[i]@,
                *outcome,
            ),
{
    let mut i: usize = 0;
    while i < tasks.len()
        invariant
            i <= tasks.len(),
            tasks.len() == old(tasks).len(),
            forall|j: int| 0 <= j < i ==> (#[trigger] tasks[j])@ == concluded(old(tasks)[j]@, *outcome),
            forall|j: int| i <= j < tasks.len() ==> (#[trigger] tasks[j]) == old(tasks)[j],
        decreases tasks.len() - i,
    {
        match outcome {
            BatchOutcome::Succeeded => {
                tasks[i].status = Status::Succeeded;
                tasks[i].error = None;
            },
            BatchOutcome::Failed(e) => {
                tasks[i].status = Status::Failed;
                tasks[i].error = Some(e.clone());
            },
            BatchOutcome::Canceled { by } => {
                tasks[i].status = Status::Canceled;
                tasks[i].canceled_by = Some(*by);
                tasks[i].error = None;
            },
        }
        i += 1;
    }
}

/// Whether a failure stops the processor for good: only a corrupted queue found
/// when the processor starts does; later it fails the batch at hand and no more.
pub fn is_fatal(code: Code, at_startup: bool) -> (r: bool)
    ensures
        r == (at_startup && code == Code::CorruptedTaskQueue),
{
    at_startup && code == Code::CorruptedTaskQueue
}

/// Whether the batch must be rolled back whole: it must for a failure of the
/// engine itself, while a failure of the request or for want of a resource fails
/// the tasks and leaves the index as it was.
pub fn rolls_back(code: Code) -> (r: bool)
    ensures
        r == (code.spec_class() == ErrorClass::System),
{
    match code.class() {
        ErrorClass::System => true,
        _ => false,
    }
}

} // verus!

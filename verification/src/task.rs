//! One benchmark task: create a container pinned to a number of cores, start
//! it, wait for its exit, measure, remove it.
//!
//! The task itself performs nothing. It is a state machine: it names the
//! next call to make on the runtime, and is told how that call ended.

use vstd::prelude::*;
use vstd::string::StringExecFns;
use crate::decimal::{decimal, decimal_text};

verus! {

/// One benchmark to run: an image, and the number of cores it may use.
#[derive(Debug, PartialEq, Eq)]
pub struct BenchmarkRequest {
    pub image_reference: String,
    pub core_budget: u64,
}

/// The cores `first ..= last` of the host.
#[derive(Clone, Copy, Debug, PartialEq, Eq, Structural)]
pub struct CpuSet {
    pub first: u64,
    pub last: u64,
}

/// The name under which the runtime knows a container. It belongs to the
/// task that the container was created for, and to no other.
#[derive(Debug, PartialEq, Eq)]
pub struct ContainerHandle {
    pub id: String,
}

impl ContainerHandle {
    /// The same handle once more, to name the container in a call.
    pub fn duplicate(&self) -> (handle: ContainerHandle)
        ensures
            handle == *self,
    {
        ContainerHandle { id: self.id.clone() }
    }
}

/// A finished benchmark: the cores it had and the time it took.
#[derive(Clone, Copy, Debug, PartialEq, Eq, Structural)]
pub struct BenchmarkResult {
    pub core_budget: u64,
    pub duration_millis: u64,
}

/// Why a task has no result.
#[derive(Clone, Copy, Debug, PartialEq, Eq, Structural)]
pub enum BenchmarkError {
    /// The runtime refused to create the container.
    CreationError,
    /// The container did not start, the wait for its exit failed, or it
    /// exited with a status other than zero.
    ExecutionError,
}

/// How a call on the runtime ended.
#[derive(Debug, PartialEq, Eq)]
pub enum Event {
    /// The container exists, under this handle.
    Created { handle: ContainerHandle },
    /// The runtime refused to create the container.
    CreateFailed,
    /// The container was started; the clock was read just before the call.
    Started { issued_at_millis: u64 },
    /// The start call failed.
    StartFailed,
    /// The container exited; the clock was read when the exit was seen.
    Exited { status_code: i64, observed_at_millis: u64 },
    /// The wait for the exit failed.
    WaitFailed,
    /// The container is gone.
    Removed,
    /// The runtime could not remove the container.
    RemoveFailed,
}

/// The next thing to do for a task.
#[derive(Debug, PartialEq, Eq)]
pub enum Action {
    /// Create a container of the image, limited to the given cores, that
    /// runs to its end without a terminal.
    Create { image_reference: String, cpus: CpuSet },
    /// Read the clock, then start the container.
    Start { handle: ContainerHandle },
    /// Wait until the container exits, then read the clock.
    AwaitExit { handle: ContainerHandle },
    /// Remove the container.
    Remove { handle: ContainerHandle },
    /// The task is over. A removal that failed is reported beside the
    /// outcome and does not change it.
    Report { outcome: Result<BenchmarkResult, BenchmarkError>, cleanup_failed: bool },
    /// The event was not awaited: nothing changes, nothing is to be done.
    Idle,
}

/// Where a task stands.
#[derive(Debug, PartialEq, Eq)]
pub enum TaskState {
    /// Waiting for the container to be created.
    Creating,
    /// The container exists; waiting for it to start.
    Starting { handle: ContainerHandle },
    /// The container runs; waiting for its exit.
    Running { handle: ContainerHandle, started_at_millis: u64 },
    /// The outcome is settled; waiting for the container to be removed.
    Removing { handle: ContainerHandle, outcome: Result<BenchmarkResult, BenchmarkError> },
    /// Over.
    Done { outcome: Result<BenchmarkResult, BenchmarkError>, cleanup_failed: bool },
}

/// The cores given to a task with this budget: as many as the budget says,
/// counted from core 0.
pub open spec fn cpus_for(core_budget: u64) -> CpuSet {
    CpuSet { first: 0, last: (core_budget - 1) as u64 }
}

/// The cores `first ..= last` in the notation of the runtime: the two
/// numbers in decimal with a hyphen between them.
pub open spec fn cpu_list(cpus: CpuSet) -> Seq<char> {
    decimal(cpus.first as nat) + seq!['-'] + decimal(cpus.last as nat)
}

impl CpuSet {
    /// The set in the notation of the runtime, such as `0-3`.
    pub fn text(&self) -> (text: String)
        ensures
            text@ == cpu_list(*self),
    {
        let mut text = decimal_text(self.first);
        let last = decimal_text(self.last);
        proof {
            reveal_strlit("-");
            assert("-"@ =~= seq!['-']);
        }
        text.append("-");
        text.append(last.as_str());
        text
    }
}

/// The time from `start` to `end`; zero where the clock ran backwards.
pub open spec fn elapsed(start: u64, end: u64) -> u64 {
    if end >= start {
        (end - start) as u64
    } else {
        0
    }
}

/// What an exit says of the benchmark: a result with the measured time
/// where the status is zero, else a failed execution.
pub open spec fn verdict(core_budget: u64, started: u64, status_code: i64, observed: u64) -> Result<
    BenchmarkResult,
    BenchmarkError,
> {
    if status_code == 0 {
        Ok(BenchmarkResult { core_budget, duration_millis: elapsed(started, observed) })
    } else {
        Err(BenchmarkError::ExecutionError)
    }
}

/// Whether `event` answers the call that `state` waits for.
pub open spec fn expects(state: TaskState, event: Event) -> bool {
    match state {
        TaskState::Creating => event is Created || event is CreateFailed,
        TaskState::Starting { .. } => event is Started || event is StartFailed,
        TaskState::Running { .. } => event is Exited || event is WaitFailed,
        TaskState::Removing { .. } => event is Removed || event is RemoveFailed,
        TaskState::Done { .. } => false,
    }
}

/// The state after `event`. An event that is not awaited changes nothing.
pub open spec fn next_state(core_budget: u64, state: TaskState, event: Event) -> TaskState {
    match (state, event) {
        (TaskState::Creating, Event::Created { handle }) => TaskState::Starting { handle },
        (TaskState::Creating, Event::CreateFailed) => TaskState::Done {
            outcome: Err(BenchmarkError::CreationError),
            cleanup_failed: false,
        },
        (TaskState::Starting { handle }, Event::Started { issued_at_millis }) => TaskState::Running {
            handle,
            started_at_millis: issued_at_millis,
        },
        (TaskState::Starting { handle }, Event::StartFailed) => TaskState::Removing {
            handle,
            outcome: Err(BenchmarkError::ExecutionError),
        },
        (
            TaskState::Running { handle, started_at_millis },
            Event::Exited { status_code, observed_at_millis },
        ) => TaskState::Removing {
            handle,
            outcome: verdict(core_budget, started_at_millis, status_code, observed_at_millis),
        },
        (TaskState::Running { handle, .. }, Event::WaitFailed) => TaskState::Removing {
            handle,
            outcome: Err(BenchmarkError::ExecutionError),
        },
        (TaskState::Removing { outcome, .. }, Event::Removed) => TaskState::Done {
            outcome,
            cleanup_failed: false,
        },
        (TaskState::Removing { outcome, .. }, Event::RemoveFailed) => TaskState::Done {
            outcome,
            cleanup_failed: true,
        },
        _ => state,
    }
}

/// The call that a task in `state` waits for, or its report once it is over.
pub open spec fn pending_action(request: BenchmarkRequest, state: TaskState) -> Action {
    match state {
        TaskState::Creating => Action::Create {
            image_reference: request.image_reference,
            cpus: cpus_for(request.core_budget),
        },
        TaskState::Starting { handle } => Action::Start { handle },
        TaskState::Running { handle, .. } => Action::AwaitExit { handle },
        TaskState::Removing { handle, .. } => Action::Remove { handle },
        TaskState::Done { outcome, cleanup_failed } => Action::Report { outcome, cleanup_failed },
    }
}

/// What a task answers to `event`: the call that its new state waits for,
/// or `Idle` where the event was not awaited.
pub open spec fn next_action(request: BenchmarkRequest, state: TaskState, event: Event) -> Action {
    if expects(state, event) {
        pending_action(request, next_state(request.core_budget, state, event))
    } else {
        Action::Idle
    }
}

/// The outcome that `state` has settled on, if any.
pub open spec fn settled(state: TaskState) -> Option<Result<BenchmarkResult, BenchmarkError>> {
    match state {
        TaskState::Removing { outcome, .. } => Some(outcome),
        TaskState::Done { outcome, .. } => Some(outcome),
        _ => None,
    }
}

/// A result that `state` holds is one for `core_budget`.
pub open spec fn state_wf(core_budget: u64, state: TaskState) -> bool {
    match settled(state) {
        Some(Ok(result)) => result.core_budget == core_budget,
        _ => true,
    }
}

/// The container that a task in `state` has created and not yet asked the
/// runtime to remove.
pub open spec fn container_held(state: TaskState) -> Option<ContainerHandle> {
    match state {
        TaskState::Starting { handle } => Some(handle),
        TaskState::Running { handle, .. } => Some(handle),
        _ => None,
    }
}

/// The state after the events `events`, taken in order.
pub open spec fn run(core_budget: u64, state: TaskState, events: Seq<Event>) -> TaskState
    decreases events.len(),
{
    if events.len() == 0 {
        state
    } else {
        run(core_budget, next_state(core_budget, state, events[0]), events.drop_first())
    }
}

/// The actions that a task answers to the events `events`, one for each.
pub open spec fn issued(request: BenchmarkRequest, state: TaskState, events: Seq<Event>) -> Seq<
    Action,
>
    decreases events.len(),
{
    if events.len() == 0 {
        Seq::empty()
    } else {
        seq![next_action(request, state, events[0])] + issued(
            request,
            next_state(request.core_budget, state, events[0]),
            events.drop_first(),
        )
    }
}

/// The time from `start` to `end`; zero where the clock ran backwards.
pub fn elapsed_millis(start: u64, end: u64) -> (duration: u64)
    ensures
        duration == elapsed(start, end),
{
    if end >= start {
        end - start
    } else {
        0
    }
}

/// A task and the state it is in.
#[derive(Debug, PartialEq, Eq)]
pub struct Task {
    request: BenchmarkRequest,
    state: TaskState,
}

impl Task {
    /// The request that the task was launched for.
    pub closed spec fn spec_request(&self) -> BenchmarkRequest {
        self.request
    }

    /// The state that the task is in.
    pub closed spec fn spec_state(&self) -> TaskState {
        self.state
    }

    /// The budget is positive, and a result that the task holds is one for
    /// its budget.
    pub open spec fn wf(&self) -> bool {
        &&& self.spec_request().core_budget >= 1
        &&& state_wf(self.spec_request().core_budget, self.spec_state())
    }

    /// Launches a task for `request`. It waits for its container to be
    /// created: `pending` names the call.
    pub fn launch(request: BenchmarkRequest) -> (task: Task)
        requires
            request.core_budget >= 1,
        ensures
            task.wf(),
            task.spec_request() == request,
            task.spec_state() == TaskState::Creating,
    {
        Task { request, state: TaskState::Creating }
    }

    /// The number of cores the task's container is limited to.
    pub fn core_budget(&self) -> (core_budget: u64)
        ensures
            core_budget == self.spec_request().core_budget,
    {
        self.request.core_budget
    }

    /// The state that the task is in.
    pub fn state(&self) -> (state: &TaskState)
        ensures
            *state == self.spec_state(),
    {
        &self.state
    }

    /// The outcome, once the task is over.
    pub fn outcome(&self) -> (outcome: Option<Result<BenchmarkResult, BenchmarkError>>)
        ensures
            outcome == match self.spec_state() {
                TaskState::Done { outcome, .. } => Some(outcome),
                _ => None,
            },
    {
        match &self.state {
            TaskState::Done { outcome, .. } => Some(*outcome),
            _ => None,
        }
    }

    /// The call that the task waits for, or its report once it is over.
    pub fn pending(&self) -> (action: Action)
        requires
            self.wf(),
        ensures
            action == pending_action(self.spec_request(), self.spec_state()),
    {
        match &self.state {
            TaskState::Creating => Action::Create {
                image_reference: self.request.image_reference.clone(),
                cpus: CpuSet { first: 0, last: self.request.core_budget - 1 },
            },
            TaskState::Starting { handle } => Action::Start { handle: handle.duplicate() },
            TaskState::Running { handle, .. } => Action::AwaitExit { handle: handle.duplicate() },
            TaskState::Removing { handle, .. } => Action::Remove { handle: handle.duplicate() },
            TaskState::Done { outcome, cleanup_failed } => Action::Report {
                outcome: *outcome,
                cleanup_failed: *cleanup_failed,
            },
        }
    }

    /// Tells the task how the call it waited for ended, and returns the
    /// next thing to do. Once the container exists, every way on leads to
    /// its removal; the outcome is settled before the removal and is not
    /// changed by it.
    pub fn step(&mut self, event: Event) -> (action: Action)
        requires
            old(self).wf(),
        ensures
            final(self).wf(),
            final(self).spec_request() == old(self).spec_request(),
            final(self).spec_state() == next_state(
                old(self).spec_request().core_budget,
                old(self).spec_state(),
                event,
            ),
            action == next_action(old(self).spec_request(), old(self).spec_state(), event),
    {
        let core_budget = self.request.core_budget;
        let next: Option<TaskState> = match &self.state {
            TaskState::Creating => match event {
                Event::Created { handle } => Some(TaskState::Starting { handle }),
                Event::CreateFailed => Some(
                    TaskState::Done {
                        outcome: Err(BenchmarkError::CreationError),
                        cleanup_failed: false,
                    },
                ),
                _ => None,
            },
            TaskState::Starting { handle } => match event {
                Event::Started { issued_at_millis } => Some(
                    TaskState::Running {
                        handle: handle.duplicate(),
                        started_at_millis: issued_at_millis,
                    },
                ),
                Event::StartFailed => Some(
                    TaskState::Removing {
                        handle: handle.duplicate(),
                        outcome: Err(BenchmarkError::ExecutionError),
                    },
                ),
                _ => None,
            },
            TaskState::Running { handle, started_at_millis } => match event {
                Event::Exited { status_code, observed_at_millis } => {
                    let outcome = if status_code == 0 {
                        Ok(
                            BenchmarkResult {
                                core_budget,
                                duration_millis: elapsed_millis(
                                    *started_at_millis,
                                    observed_at_millis,
                                ),
                            },
                        )
                    } else {
                        Err(BenchmarkError::ExecutionError)
                    };
                    Some(TaskState::Removing { handle: handle.duplicate(), outcome })
                },
                Event::WaitFailed => Some(
                    TaskState::Removing {
                        handle: handle.duplicate(),
                        outcome: Err(BenchmarkError::ExecutionError),
                    },
                ),
                _ => None,
            },
            TaskState::Removing { outcome, .. } => match event {
                Event::Removed => Some(TaskState::Done { outcome: *outcome, cleanup_failed: false }),
                Event::RemoveFailed => Some(
                    TaskState::Done { outcome: *outcome, cleanup_failed: true },
                ),
                _ => None,
            },
            TaskState::Done { .. } => None,
        };
        match next {
            Some(state) => {
                self.state = state;
                self.pending()
            },
            None => Action::Idle,
        }
    }
}

/// No task ends with a container left behind: a task that holds a container
/// and is over after `events` has, among its answers to them, asked for
/// the removal of that very container.
pub proof fn lemma_container_removed_before_done(
    request: BenchmarkRequest,
    state: TaskState,
    events: Seq<Event>,
)
    requires
        container_held(state) is Some,
        run(request.core_budget, state, events) is Done,
    ensures
        issued(request, state, events).contains(Action::Remove { handle: container_held(state)->0 }),
    decreases events.len(),
{
    let handle = container_held(state)->0;
    if events.len() == 0 {
    } else {
        let first = next_action(request, state, events[0]);
        let after = next_state(request.core_budget, state, events[0]);
        let rest = issued(request, after, events.drop_first());
        let all = issued(request, state, events);
        assert(all == seq![first] + rest);
        if container_held(after) is Some {
            assert(container_held(after)->0 == handle);
            lemma_container_removed_before_done(request, after, events.drop_first());
            let k = choose|k: int| 0 <= k < rest.len() && rest[k] == Action::Remove { handle };
            assert(all[k + 1] == rest[k]);
        } else {
            assert(after is Removing);
            assert(first == Action::Remove { handle });
            assert(all[0] == first);
        }
    }
}

/// A run of events may be cut in two at any place: the state after all of
/// them is the state after the second part, begun where the first part
/// ended, and the answers are those to the first part and then those to
/// the second.
pub proof fn lemma_run_in_two_parts(
    request: BenchmarkRequest,
    state: TaskState,
    events: Seq<Event>,
    k: int,
)
    requires
        0 <= k <= events.len(),
    ensures
        run(request.core_budget, state, events) == run(
            request.core_budget,
            run(request.core_budget, state, events.take(k)),
            events.skip(k),
        ),
        issued(request, state, events) == issued(request, state, events.take(k)) + issued(
            request,
            run(request.core_budget, state, events.take(k)),
            events.skip(k),
        ),
    decreases k,
{
    let budget = request.core_budget;
    if k == 0 {
        assert(events.skip(0) =~= events);
        assert(issued(request, state, events.take(0)) =~= Seq::<Action>::empty());
        assert(issued(request, state, events) =~= Seq::<Action>::empty() + issued(
            request,
            state,
            events,
        ));
    } else {
        let after = next_state(budget, state, events[0]);
        let rest = events.drop_first();
        lemma_run_in_two_parts(request, after, rest, k - 1);
        assert(events.take(k).drop_first() =~= rest.take(k - 1));
        assert(events.skip(k) =~= rest.skip(k - 1));
        assert(events.take(k)[0] == events[0]);
        let first = seq![next_action(request, state, events[0])];
        let head = issued(request, after, rest.take(k - 1));
        let tail = issued(request, run(budget, after, rest.take(k - 1)), rest.skip(k - 1));
        assert(issued(request, state, events.take(k)) == first + head);
        assert(first + (head + tail) =~= (first + head) + tail);
    }
}

/// No container outlives its task: whatever events a task is told of from
/// its launch on, and in whatever way it ends, a container that it holds
/// at any time on the way is one whose removal it has asked for by the
/// time it is over.
pub proof fn lemma_no_container_outlives_its_task(
    request: BenchmarkRequest,
    events: Seq<Event>,
    k: int,
)
    requires
        0 <= k <= events.len(),
        run(request.core_budget, TaskState::Creating, events) is Done,
        container_held(run(request.core_budget, TaskState::Creating, events.take(k))) is Some,
    ensures
        issued(request, TaskState::Creating, events).contains(
            Action::Remove {
                handle: container_held(
                    run(request.core_budget, TaskState::Creating, events.take(k)),
                )->0,
            },
        ),
{
    let midway = run(request.core_budget, TaskState::Creating, events.take(k));
    let handle = container_held(midway)->0;
    let head = issued(request, TaskState::Creating, events.take(k));
    let tail = issued(request, midway, events.skip(k));
    lemma_run_in_two_parts(request, TaskState::Creating, events, k);
    lemma_container_removed_before_done(request, midway, events.skip(k));
    let j = choose|j: int| 0 <= j < tail.len() && tail[j] == Action::Remove { handle };
    assert((head + tail)[head.len() + j] == tail[j]);
}

} // verus!

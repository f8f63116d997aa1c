//! The scheduler of a run: one task for each number of cores from the
//! host's total down to one, all under way at once.
//!
//! Like a task, the scheduler performs nothing: it names the calls to make
//! and is told how each ended, in whatever order the answers come.

use vstd::prelude::*;
use crate::capacity::HostCapacity;
use crate::report::{descending, lemma_rows_have_distinct_budgets, report, rows_of, ReportRow};
use crate::task::{
    next_action,
    next_state,
    pending_action,
    Action,
    BenchmarkError,
    BenchmarkRequest,
    BenchmarkResult,
    Event,
    Task,
    TaskState,
};

verus! {

/// The requests of a run on a host with `total_cores` cores: one for each
/// budget, from `total_cores` down to 1.
pub open spec fn requests_for(image_reference: String, total_cores: u64) -> Seq<BenchmarkRequest> {
    Seq::new(
        total_cores as nat,
        |i: int| BenchmarkRequest { image_reference, core_budget: (total_cores - i) as u64 },
    )
}

/// The states of `states` after the task at place `i` was told of `event`.
pub open spec fn delivered(
    requests: Seq<BenchmarkRequest>,
    states: Seq<TaskState>,
    i: int,
    event: Event,
) -> Seq<TaskState> {
    states.update(i, next_state(requests[i].core_budget, states[i], event))
}

/// The budget of a task beside the call that it begins with.
pub open spec fn first_call(request: BenchmarkRequest) -> (u64, Action) {
    (request.core_budget, pending_action(request, TaskState::Creating))
}

/// The first calls of the tasks for `requests`, in the order of the
/// requests.
pub open spec fn first_calls(requests: Seq<BenchmarkRequest>) -> Seq<(u64, Action)> {
    Seq::new(requests.len(), |i: int| first_call(requests[i]))
}

/// Every task is over.
pub open spec fn all_done(states: Seq<TaskState>) -> bool {
    forall|i: int| 0 <= i < states.len() ==> (#[trigger] states[i]) is Done
}

/// The outcomes that tasks in `states` have ended with, place by place.
pub open spec fn outcomes_of(states: Seq<TaskState>) -> Seq<Result<BenchmarkResult, BenchmarkError>> {
    Seq::new(states.len(), |i: int| states[i]->Done_outcome)
}

/// The requests of a run, in the order in which its tasks are launched.
pub fn requests(image_reference: &String, capacity: &HostCapacity) -> (requests: Vec<
    BenchmarkRequest,
>)
    ensures
        requests@ == requests_for(*image_reference, capacity.total_cores),
{
    let total = capacity.total_cores;
    let mut requests: Vec<BenchmarkRequest> = Vec::new();
    let mut core_budget: u64 = total;
    while core_budget > 0
        invariant
            core_budget <= total,
            requests.len() == total - core_budget,
            forall|i: int|
                0 <= i < requests.len() ==> #[trigger] requests[i] == (BenchmarkRequest {
                    image_reference: *image_reference,
                    core_budget: (total - i) as u64,
                }),
        decreases core_budget,
    {
        requests.push(BenchmarkRequest { image_reference: image_reference.clone(), core_budget });
        core_budget -= 1;
    }
    assert(requests@ =~= requests_for(*image_reference, total));
    requests
}

/// A run of `n` cores issues `n` requests, one for each budget from 1 to
/// `n` and no other, none twice: the budget `b` stands at place `n - b`
/// and nowhere else.
pub proof fn lemma_each_budget_once(image_reference: String, total_cores: u64)
    requires
        total_cores >= 1,
    ensures
        requests_for(image_reference, total_cores).len() == total_cores,
        forall|i: int|
            0 <= i < total_cores ==> 1 <= (#[trigger] requests_for(
                image_reference,
                total_cores,
            )[i]).core_budget <= total_cores,
        forall|b: int|
            1 <= b <= total_cores ==> (#[trigger] requests_for(image_reference, total_cores)[total_cores
                - b]).core_budget == b,
        forall|i: int, j: int|
            0 <= i < total_cores && 0 <= j < total_cores && i != j ==> (#[trigger] requests_for(
                image_reference,
                total_cores,
            )[i]).core_budget != (#[trigger] requests_for(image_reference, total_cores)[j]).core_budget,
{
}

/// Tasks do not wait for one another: what one task is told changes no
/// other task, and two answers for two different tasks may come in either
/// order.
pub proof fn lemma_tasks_are_independent(
    requests: Seq<BenchmarkRequest>,
    states: Seq<TaskState>,
    i: int,
    first: Event,
    j: int,
    second: Event,
)
    requires
        0 <= i < states.len(),
        0 <= j < states.len(),
        i != j,
    ensures
        delivered(requests, states, i, first)[j] == states[j],
        delivered(requests, delivered(requests, states, i, first), j, second) == delivered(
            requests,
            delivered(requests, states, j, second),
            i,
            first,
        ),
{
    assert(delivered(requests, delivered(requests, states, i, first), j, second) =~= delivered(
        requests,
        delivered(requests, states, j, second),
        i,
        first,
    ));
}

/// The tasks of one run.
pub struct Scheduler {
    tasks: Vec<Task>,
}

impl Scheduler {
    /// The tasks, in the order of their launch.
    pub closed spec fn tasks(&self) -> Seq<Task> {
        self.tasks@
    }

    /// The requests of the tasks.
    pub open spec fn spec_requests(&self) -> Seq<BenchmarkRequest> {
        Seq::new(self.tasks().len(), |i: int| self.tasks()[i].spec_request())
    }

    /// The states of the tasks.
    pub open spec fn states(&self) -> Seq<TaskState> {
        Seq::new(self.tasks().len(), |i: int| self.tasks()[i].spec_state())
    }

    /// The task at place `i` of `n` is sound and has the budget `n - i`.
    pub open spec fn wf(&self) -> bool {
        forall|i: int|
            0 <= i < self.tasks().len() ==> (#[trigger] self.tasks()[i]).wf()
                && self.tasks()[i].spec_request().core_budget == self.tasks().len() - i
    }

    /// Launches one task for each budget from the host's cores down to 1,
    /// and returns with the scheduler the first call of each task beside
    /// the budget of that task, in the same order.
    pub fn launch(image_reference: &String, capacity: &HostCapacity) -> (run: (
        Scheduler,
        Vec<(u64, Action)>,
    ))
        requires
            capacity.wf(),
        ensures
            run.0.wf(),
            run.0.spec_requests() == requests_for(*image_reference, capacity.total_cores),
            run.0.states() == Seq::new(capacity.total_cores as nat, |i: int| TaskState::Creating),
            run.1@ == first_calls(requests_for(*image_reference, capacity.total_cores)),
    {
        let total = capacity.total_cores;
        let mut tasks: Vec<Task> = Vec::new();
        let mut actions: Vec<(u64, Action)> = Vec::new();
        let mut core_budget: u64 = total;
        while core_budget > 0
            invariant
                core_budget <= total,
                tasks.len() == total - core_budget,
                actions.len() == tasks.len(),
                forall|i: int|
                    0 <= i < tasks.len() ==> (#[trigger] tasks[i]).wf() && tasks[i].spec_request()
                        == (BenchmarkRequest {
                        image_reference: *image_reference,
                        core_budget: (total - i) as u64,
                    }) && tasks[i].spec_state() == TaskState::Creating,
                forall|i: int|
                    0 <= i < actions.len() ==> #[trigger] actions[i] == first_call(
                        BenchmarkRequest {
                            image_reference: *image_reference,
                            core_budget: (total - i) as u64,
                        },
                    ),
            decreases core_budget,
        {
            let task = Task::launch(
                BenchmarkRequest { image_reference: image_reference.clone(), core_budget },
            );
            actions.push((core_budget, task.pending()));
            tasks.push(task);
            core_budget -= 1;
        }
        let scheduler = Scheduler { tasks };
        proof {
            assert(scheduler.spec_requests() =~= requests_for(*image_reference, total));
            assert(scheduler.states() =~= Seq::new(total as nat, |i: int| TaskState::Creating));
            assert(actions@ =~= first_calls(requests_for(*image_reference, total)));
        }
        (scheduler, actions)
    }

    /// The number of tasks.
    pub fn task_count(&self) -> (count: usize)
        ensures
            count == self.states().len(),
    {
        self.tasks.len()
    }

    /// Tells the task with the budget `core_budget` how its call ended, and
    /// returns the next thing to do for that task. No other task changes.
    /// Where no task has that budget, nothing changes and nothing is to be
    /// done.
    pub fn deliver(&mut self, core_budget: u64, event: Event) -> (action: Action)
        requires
            old(self).wf(),
        ensures
            final(self).wf(),
            final(self).spec_requests() == old(self).spec_requests(),
            1 <= core_budget <= old(self).states().len() ==> {
                let i = old(self).states().len() - core_budget;
                &&& final(self).states() == delivered(
                    old(self).spec_requests(),
                    old(self).states(),
                    i,
                    event,
                )
                &&& action == next_action(old(self).spec_requests()[i], old(self).states()[i], event)
            },
            !(1 <= core_budget <= old(self).states().len()) ==> final(self).states() == old(
                self,
            ).states() && action == Action::Idle,
    {
        let count = self.tasks.len();
        if core_budget == 0 || core_budget > count as u64 {
            return Action::Idle;
        }
        let i = count - core_budget as usize;
        let ghost before = self.tasks@;
        let action = self.tasks[i].step(event);
        proof {
            assert(self.tasks@.len() == before.len());
            assert forall|k: int| 0 <= k < before.len() && k != i implies self.tasks@[k]
                == before[k] by {}
            assert(final(self).spec_requests() =~= old(self).spec_requests());
            assert(final(self).states() =~= delivered(
                old(self).spec_requests(),
                old(self).states(),
                i as int,
                event,
            ));
        }
        action
    }

    /// Whether every task is over. Only then is the run complete: a task
    /// that failed ends no other.
    pub fn finished(&self) -> (done: bool)
        ensures
            done == all_done(self.states()),
    {
        let mut i: usize = 0;
        while i < self.tasks.len()
            invariant
                i <= self.tasks.len(),
                forall|k: int| 0 <= k < i ==> (#[trigger] self.states()[k]) is Done,
            decreases self.tasks.len() - i,
        {
            if self.tasks[i].outcome().is_none() {
                assert(!(self.states()[i as int] is Done));
                return false;
            }
            i += 1;
        }
        true
    }

    /// The outcomes of all tasks in the order of their launch, once every
    /// task is over; `None` while one is still under way.
    pub fn outcomes(&self) -> (outcomes: Option<Vec<Result<BenchmarkResult, BenchmarkError>>>)
        requires
            self.wf(),
        ensures
            outcomes is Some <==> all_done(self.states()),
            outcomes is Some ==> {
                &&& outcomes->0@ == outcomes_of(self.states())
                &&& forall|i: int|
                    0 <= i < self.states().len() && (#[trigger] outcomes->0[i]) is Ok
                        ==> outcomes->0[i]->Ok_0.core_budget == self.states().len() - i
            },
    {
        let mut outcomes: Vec<Result<BenchmarkResult, BenchmarkError>> = Vec::new();
        let mut i: usize = 0;
        while i < self.tasks.len()
            invariant
                self.wf(),
                i <= self.tasks.len(),
                outcomes.len() == i,
                forall|k: int|
                    0 <= k < i ==> (#[trigger] self.states()[k]) is Done
                        && self.states()[k]->Done_outcome == outcomes[k],
                forall|k: int|
                    0 <= k < i && (#[trigger] outcomes[k]) is Ok ==> outcomes[k]->Ok_0.core_budget
                        == self.tasks.len() - k,
            decreases self.tasks.len() - i,
        {
            match self.tasks[i].outcome() {
                Some(outcome) => {
                    assert(self.tasks()[i as int].wf());
                    assert(self.states()[i as int] is Done);
                    outcomes.push(outcome);
                },
                None => {
                    assert(!(self.states()[i as int] is Done));
                    return None;
                },
            }
            i += 1;
        }
        assert(outcomes@ =~= outcomes_of(self.states()));
        Some(outcomes)
    }

    /// The report of the run, once every task is over; `None` while one is
    /// still under way. It has a row for each task that succeeded and for
    /// no other, in the order of the launch, so that the budgets fall from
    /// row to row and none comes twice.
    pub fn report(&self) -> (rows: Option<Vec<ReportRow>>)
        requires
            self.wf(),
        ensures
            rows is Some <==> all_done(self.states()),
            rows is Some ==> rows->0@ == rows_of(outcomes_of(self.states())) && descending(
                rows->0@,
            ),
    {
        match self.outcomes() {
            Some(outcomes) => {
                proof {
                    lemma_rows_have_distinct_budgets(outcomes@, outcomes@.len() as int);
                }
                Some(report(&outcomes))
            },
            None => None,
        }
    }
}

} // verus!

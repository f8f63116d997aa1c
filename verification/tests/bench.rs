use baywatch::capacity::{host_capacity, FatalError, HostCapacity};
use baywatch::report::{report, ReportRow};
use baywatch::scheduler::{requests, Scheduler};
use baywatch::decimal::decimal_text;
use baywatch::task::{
    elapsed_millis, Action, BenchmarkError, BenchmarkRequest, BenchmarkResult, ContainerHandle,
    CpuSet, Event, Task,
    TaskState,
};

fn capacity(total_cores: u64) -> HostCapacity {
    HostCapacity { total_cores, total_memory_bytes: 8 << 30 }
}

fn handle(id: &str) -> ContainerHandle {
    ContainerHandle { id: String::from(id) }
}

fn handle_of(core_budget: u64) -> ContainerHandle {
    ContainerHandle { id: format!("container-{}", core_budget) }
}

/// Runs the task with `core_budget` from its creation to its report: the
/// container starts at 1000 ms and exits with `status` after `duration`.
fn run_to_end(scheduler: &mut Scheduler, core_budget: u64, status: i64, duration: u64) -> Action {
    let handle = handle_of(core_budget);
    assert_eq!(
        scheduler.deliver(core_budget, Event::Created { handle: handle.duplicate() }),
        Action::Start { handle: handle.duplicate() }
    );
    assert_eq!(
        scheduler.deliver(core_budget, Event::Started { issued_at_millis: 1000 }),
        Action::AwaitExit { handle: handle.duplicate() }
    );
    assert_eq!(
        scheduler.deliver(
            core_budget,
            Event::Exited { status_code: status, observed_at_millis: 1000 + duration }
        ),
        Action::Remove { handle }
    );
    scheduler.deliver(core_budget, Event::Removed)
}

#[test]
fn capacity_is_read_from_both_figures() {
    assert_eq!(
        host_capacity(Some(4), Some(1024)),
        Ok(HostCapacity { total_cores: 4, total_memory_bytes: 1024 })
    );
}

#[test]
fn capacity_is_unavailable_without_cores() {
    assert_eq!(host_capacity(None, Some(1024)), Err(FatalError::CapacityUnavailableError));
}

#[test]
fn capacity_is_unavailable_without_memory() {
    assert_eq!(host_capacity(Some(4), None), Err(FatalError::CapacityUnavailableError));
}

#[test]
fn capacity_is_unavailable_with_no_cores_or_negative_figures() {
    assert_eq!(host_capacity(Some(0), Some(1024)), Err(FatalError::CapacityUnavailableError));
    assert_eq!(host_capacity(Some(-2), Some(1024)), Err(FatalError::CapacityUnavailableError));
    assert_eq!(host_capacity(Some(2), Some(0)), Err(FatalError::CapacityUnavailableError));
    assert_eq!(host_capacity(Some(2), Some(-1)), Err(FatalError::CapacityUnavailableError));
}

#[test]
fn connection_error_differs_from_capacity_error() {
    assert_ne!(FatalError::ConnectionError, FatalError::CapacityUnavailableError);
}

#[test]
fn requests_descend_from_total_to_one() {
    let image = String::from("alpine:latest");
    let all = requests(&image, &capacity(4));
    let expected: Vec<BenchmarkRequest> = vec![4u64, 3, 2, 1]
        .into_iter()
        .map(|core_budget| BenchmarkRequest { image_reference: image.clone(), core_budget })
        .collect();
    assert_eq!(all, expected);
}

#[test]
fn requests_hold_each_budget_once() {
    let image = String::from("bench");
    for n in 1u64..=16 {
        let all = requests(&image, &capacity(n));
        assert_eq!(all.len() as u64, n);
        for b in 1..=n {
            assert_eq!(all.iter().filter(|r| r.core_budget == b).count(), 1);
        }
    }
}

#[test]
fn single_core_host_has_one_request() {
    let all = requests(&String::from("bench"), &capacity(1));
    assert_eq!(all.len(), 1);
    assert_eq!(all[0].core_budget, 1);
}

#[test]
fn launch_issues_one_creation_per_budget() {
    let image = String::from("bench");
    let (scheduler, actions) = Scheduler::launch(&image, &capacity(3));
    assert_eq!(scheduler.task_count(), 3);
    assert_eq!(
        actions,
        vec![
            (3, Action::Create { image_reference: image.clone(), cpus: CpuSet { first: 0, last: 2 } }),
            (2, Action::Create { image_reference: image.clone(), cpus: CpuSet { first: 0, last: 1 } }),
            (1, Action::Create { image_reference: image.clone(), cpus: CpuSet { first: 0, last: 0 } }),
        ]
    );
    assert!(!scheduler.finished());
    assert_eq!(scheduler.outcomes(), None);
}

#[test]
fn elapsed_is_the_difference() {
    assert_eq!(elapsed_millis(100, 220), 120);
    assert_eq!(elapsed_millis(7, 7), 0);
    assert_eq!(elapsed_millis(0, u64::MAX), u64::MAX);
}

#[test]
fn elapsed_is_zero_when_the_clock_ran_backwards() {
    assert_eq!(elapsed_millis(5, 3), 0);
}

#[test]
fn task_runs_create_start_wait_remove_report() {
    let request = BenchmarkRequest { image_reference: String::from("img"), core_budget: 2 };
    let mut task = Task::launch(request);
    assert_eq!(task.core_budget(), 2);
    assert_eq!(*task.state(), TaskState::Creating);
    assert_eq!(
        task.pending(),
        Action::Create { image_reference: String::from("img"), cpus: CpuSet { first: 0, last: 1 } }
    );
    assert_eq!(
        task.step(Event::Created { handle: handle("c1") }),
        Action::Start { handle: handle("c1") }
    );
    assert_eq!(
        task.step(Event::Started { issued_at_millis: 40 }),
        Action::AwaitExit { handle: handle("c1") }
    );
    assert_eq!(
        *task.state(),
        TaskState::Running { handle: handle("c1"), started_at_millis: 40 }
    );
    assert_eq!(
        task.step(Event::Exited { status_code: 0, observed_at_millis: 100 }),
        Action::Remove { handle: handle("c1") }
    );
    assert_eq!(task.outcome(), None);
    let result = BenchmarkResult { core_budget: 2, duration_millis: 60 };
    assert_eq!(
        task.step(Event::Removed),
        Action::Report { outcome: Ok(result), cleanup_failed: false }
    );
    assert_eq!(task.outcome(), Some(Ok(result)));
}

#[test]
fn creation_failure_ends_the_task_at_once() {
    let mut task =
        Task::launch(BenchmarkRequest { image_reference: String::from("img"), core_budget: 1 });
    assert_eq!(
        task.step(Event::CreateFailed),
        Action::Report { outcome: Err(BenchmarkError::CreationError), cleanup_failed: false }
    );
    assert_eq!(task.outcome(), Some(Err(BenchmarkError::CreationError)));
}

#[test]
fn start_failure_removes_the_container() {
    let mut task =
        Task::launch(BenchmarkRequest { image_reference: String::from("img"), core_budget: 1 });
    task.step(Event::Created { handle: handle("c9") });
    assert_eq!(task.step(Event::StartFailed), Action::Remove { handle: handle("c9") });
    assert_eq!(
        task.step(Event::Removed),
        Action::Report { outcome: Err(BenchmarkError::ExecutionError), cleanup_failed: false }
    );
}

#[test]
fn wait_failure_removes_the_container() {
    let mut task =
        Task::launch(BenchmarkRequest { image_reference: String::from("img"), core_budget: 1 });
    task.step(Event::Created { handle: handle("c9") });
    task.step(Event::Started { issued_at_millis: 1 });
    assert_eq!(task.step(Event::WaitFailed), Action::Remove { handle: handle("c9") });
    assert_eq!(
        task.step(Event::Removed),
        Action::Report { outcome: Err(BenchmarkError::ExecutionError), cleanup_failed: false }
    );
}

#[test]
fn non_zero_exit_is_an_execution_error_and_still_cleans_up() {
    let mut task =
        Task::launch(BenchmarkRequest { image_reference: String::from("img"), core_budget: 1 });
    task.step(Event::Created { handle: handle("c9") });
    task.step(Event::Started { issued_at_millis: 1 });
    assert_eq!(
        task.step(Event::Exited { status_code: 137, observed_at_millis: 50 }),
        Action::Remove { handle: handle("c9") }
    );
    assert_eq!(
        task.step(Event::Removed),
        Action::Report { outcome: Err(BenchmarkError::ExecutionError), cleanup_failed: false }
    );
}

#[test]
fn failed_cleanup_keeps_the_verdict() {
    let mut task =
        Task::launch(BenchmarkRequest { image_reference: String::from("img"), core_budget: 3 });
    task.step(Event::Created { handle: handle("c3") });
    task.step(Event::Started { issued_at_millis: 10 });
    task.step(Event::Exited { status_code: 0, observed_at_millis: 35 });
    assert_eq!(
        task.step(Event::RemoveFailed),
        Action::Report {
            outcome: Ok(BenchmarkResult { core_budget: 3, duration_millis: 25 }),
            cleanup_failed: true
        }
    );
}

#[test]
fn event_that_is_not_awaited_changes_nothing() {
    let mut task =
        Task::launch(BenchmarkRequest { image_reference: String::from("img"), core_budget: 1 });
    assert_eq!(task.step(Event::Removed), Action::Idle);
    assert_eq!(task.step(Event::Started { issued_at_millis: 3 }), Action::Idle);
    assert_eq!(*task.state(), TaskState::Creating);
    task.step(Event::CreateFailed);
    assert_eq!(task.step(Event::Created { handle: handle("late") }), Action::Idle);
    assert_eq!(task.outcome(), Some(Err(BenchmarkError::CreationError)));
}

#[test]
fn four_cores_all_succeed() {
    let (mut scheduler, actions) = Scheduler::launch(&String::from("bench"), &capacity(4));
    assert_eq!(actions.len(), 4);
    let durations = [(1u64, 120u64), (2, 80), (3, 60), (4, 55)];
    for (core_budget, duration) in durations {
        let last = run_to_end(&mut scheduler, core_budget, 0, duration);
        assert_eq!(
            last,
            Action::Report {
                outcome: Ok(BenchmarkResult { core_budget, duration_millis: duration }),
                cleanup_failed: false
            }
        );
    }
    assert!(scheduler.finished());
    let outcomes = scheduler.outcomes().unwrap();
    let rows = report(&outcomes);
    assert_eq!(
        rows,
        vec![
            ReportRow { core_budget: 4, duration_millis: 55 },
            ReportRow { core_budget: 3, duration_millis: 60 },
            ReportRow { core_budget: 2, duration_millis: 80 },
            ReportRow { core_budget: 1, duration_millis: 120 },
        ]
    );
}

#[test]
fn failed_creation_for_three_cores_leaves_three_rows() {
    let (mut scheduler, _) = Scheduler::launch(&String::from("bench"), &capacity(4));
    run_to_end(&mut scheduler, 1, 0, 120);
    run_to_end(&mut scheduler, 2, 0, 80);
    assert_eq!(
        scheduler.deliver(3, Event::CreateFailed),
        Action::Report { outcome: Err(BenchmarkError::CreationError), cleanup_failed: false }
    );
    assert!(!scheduler.finished());
    run_to_end(&mut scheduler, 4, 0, 55);
    assert!(scheduler.finished());
    let outcomes = scheduler.outcomes().unwrap();
    assert_eq!(outcomes.len(), 4);
    assert_eq!(outcomes[1], Err(BenchmarkError::CreationError));
    assert_eq!(scheduler.report(), Some(report(&outcomes)));
    let rows = report(&outcomes);
    assert_eq!(
        rows,
        vec![
            ReportRow { core_budget: 4, duration_millis: 55 },
            ReportRow { core_budget: 2, duration_millis: 80 },
            ReportRow { core_budget: 1, duration_millis: 120 },
        ]
    );
}

#[test]
fn report_has_one_row_less_for_each_failure() {
    let outcomes = vec![
        Ok(BenchmarkResult { core_budget: 5, duration_millis: 10 }),
        Err(BenchmarkError::ExecutionError),
        Ok(BenchmarkResult { core_budget: 3, duration_millis: 30 }),
        Err(BenchmarkError::CreationError),
        Err(BenchmarkError::ExecutionError),
    ];
    let rows = report(&outcomes);
    assert_eq!(
        rows,
        vec![
            ReportRow { core_budget: 5, duration_millis: 10 },
            ReportRow { core_budget: 3, duration_millis: 30 },
        ]
    );
}

#[test]
fn report_of_nothing_is_empty() {
    assert!(report(&Vec::new()).is_empty());
    assert!(report(&vec![Err(BenchmarkError::CreationError)]).is_empty());
}

#[test]
fn two_runs_report_the_same_budgets() {
    let mut budgets = Vec::new();
    for offset in [0u64, 17] {
        let (mut scheduler, _) = Scheduler::launch(&String::from("bench"), &capacity(3));
        for core_budget in 1..=3 {
            run_to_end(&mut scheduler, core_budget, 0, 10 * core_budget + offset);
        }
        let rows = report(&scheduler.outcomes().unwrap());
        budgets.push(rows.iter().map(|row| row.core_budget).collect::<Vec<u64>>());
    }
    assert_eq!(budgets[0], vec![3, 2, 1]);
    assert_eq!(budgets[0], budgets[1]);
}

#[test]
fn one_task_may_end_before_another_has_started() {
    let (mut scheduler, _) = Scheduler::launch(&String::from("bench"), &capacity(2));
    scheduler.deliver(2, Event::Created { handle: handle_of(2) });
    run_to_end(&mut scheduler, 1, 0, 5);
    assert!(!scheduler.finished());
    assert_eq!(
        scheduler.deliver(2, Event::Started { issued_at_millis: 2000 }),
        Action::AwaitExit { handle: handle_of(2) }
    );
    scheduler.deliver(2, Event::Exited { status_code: 0, observed_at_millis: 2009 });
    scheduler.deliver(2, Event::Removed);
    assert_eq!(
        scheduler.outcomes(),
        Some(vec![
            Ok(BenchmarkResult { core_budget: 2, duration_millis: 9 }),
            Ok(BenchmarkResult { core_budget: 1, duration_millis: 5 }),
        ])
    );
}

#[test]
fn answers_for_two_tasks_may_come_in_either_order() {
    let image = String::from("bench");
    let (mut a, _) = Scheduler::launch(&image, &capacity(2));
    let (mut b, _) = Scheduler::launch(&image, &capacity(2));
    a.deliver(1, Event::Created { handle: handle_of(1) });
    a.deliver(2, Event::CreateFailed);
    b.deliver(2, Event::CreateFailed);
    b.deliver(1, Event::Created { handle: handle_of(1) });
    for scheduler in [&mut a, &mut b] {
        scheduler.deliver(1, Event::Started { issued_at_millis: 0 });
        scheduler.deliver(1, Event::Exited { status_code: 0, observed_at_millis: 12 });
        scheduler.deliver(1, Event::Removed);
    }
    assert_eq!(a.outcomes(), b.outcomes());
    assert_eq!(
        a.outcomes(),
        Some(vec![
            Err(BenchmarkError::CreationError),
            Ok(BenchmarkResult { core_budget: 1, duration_millis: 12 }),
        ])
    );
}

#[test]
fn event_for_an_unknown_budget_is_ignored() {
    let (mut scheduler, _) = Scheduler::launch(&String::from("bench"), &capacity(2));
    assert_eq!(scheduler.deliver(0, Event::CreateFailed), Action::Idle);
    assert_eq!(scheduler.deliver(3, Event::CreateFailed), Action::Idle);
    assert!(!scheduler.finished());
    assert_eq!(scheduler.outcomes(), None);
}

#[test]
fn scheduler_has_no_report_while_a_task_is_under_way() {
    let (mut scheduler, _) = Scheduler::launch(&String::from("bench"), &capacity(2));
    run_to_end(&mut scheduler, 2, 0, 9);
    assert_eq!(scheduler.report(), None);
    run_to_end(&mut scheduler, 1, 3, 9);
    assert_eq!(scheduler.report(), Some(vec![ReportRow { core_budget: 2, duration_millis: 9 }]));
}

#[test]
fn cpu_set_is_written_as_a_range() {
    assert_eq!(CpuSet { first: 0, last: 3 }.text(), "0-3");
    assert_eq!(CpuSet { first: 0, last: 0 }.text(), "0-0");
    assert_eq!(CpuSet { first: 10, last: 127 }.text(), "10-127");
    assert_eq!(CpuSet { first: 0, last: u64::MAX }.text(), "0-18446744073709551615");
}

#[test]
fn created_container_is_limited_to_its_budget() {
    let (_, actions) = Scheduler::launch(&String::from("bench"), &capacity(12));
    let texts: Vec<String> = actions
        .iter()
        .map(|call| match call {
            (_, Action::Create { cpus, .. }) => cpus.text(),
            _ => String::new(),
        })
        .collect();
    assert_eq!(actions[0].0, 12);
    assert_eq!(actions[11].0, 1);
    assert_eq!(texts[0], "0-11");
    assert_eq!(texts[2], "0-9");
    assert_eq!(texts[11], "0-0");
}

#[test]
fn duplicate_names_the_same_container() {
    let first = handle("3f9a");
    assert_eq!(first.duplicate(), first);
    assert_eq!(first.duplicate().id, "3f9a");
}

#[test]
fn numbers_are_written_in_decimal() {
    assert_eq!(decimal_text(0), "0");
    assert_eq!(decimal_text(7), "7");
    assert_eq!(decimal_text(10), "10");
    assert_eq!(decimal_text(409), "409");
    assert_eq!(decimal_text(1_000_000), "1000000");
    assert_eq!(decimal_text(u64::MAX), "18446744073709551615");
}

#[test]
fn decimal_agrees_with_the_standard_writing() {
    let mut n: u64 = 1;
    for _ in 0..64 {
        assert_eq!(decimal_text(n), n.to_string());
        assert_eq!(decimal_text(n - 1), (n - 1).to_string());
        n = n.wrapping_mul(3).wrapping_add(11);
        if n == 0 {
            n = 1;
        }
    }
}

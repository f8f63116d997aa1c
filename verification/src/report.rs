//! The report of a run: one row for each benchmark that succeeded.

use vstd::prelude::*;
use crate::task::{BenchmarkError, BenchmarkResult};

verus! {

/// One line of the report.
#[derive(Clone, Copy, Debug, PartialEq, Eq, Structural)]
pub struct ReportRow {
    pub core_budget: u64,
    pub duration_millis: u64,
}

/// The row that shows `result`.
pub open spec fn row_of(result: BenchmarkResult) -> ReportRow {
    ReportRow { core_budget: result.core_budget, duration_millis: result.duration_millis }
}

/// The result that `row` shows.
pub open spec fn result_of(row: ReportRow) -> BenchmarkResult {
    BenchmarkResult { core_budget: row.core_budget, duration_millis: row.duration_millis }
}

/// The rows of the report: those of the successes among `outcomes`, in the
/// order of the outcomes. A failure has no row.
pub open spec fn rows_of(outcomes: Seq<Result<BenchmarkResult, BenchmarkError>>) -> Seq<ReportRow>
    decreases outcomes.len(),
{
    if outcomes.len() == 0 {
        Seq::empty()
    } else {
        let before = rows_of(outcomes.drop_last());
        match outcomes.last() {
            Ok(result) => before.push(row_of(result)),
            Err(_) => before,
        }
    }
}

/// How many of `outcomes` are failures.
pub open spec fn failures(outcomes: Seq<Result<BenchmarkResult, BenchmarkError>>) -> nat
    decreases outcomes.len(),
{
    if outcomes.len() == 0 {
        0
    } else {
        failures(outcomes.drop_last()) + if outcomes.last() is Err {
            1nat
        } else {
            0nat
        }
    }
}

/// The core budgets of `rows`, in their order.
pub open spec fn budgets_of(rows: Seq<ReportRow>) -> Seq<u64> {
    Seq::new(rows.len(), |k: int| rows[k].core_budget)
}

/// The budgets of `rows` fall from each row to the next.
pub open spec fn descending(rows: Seq<ReportRow>) -> bool {
    forall|a: int, b: int| 0 <= a < b < rows.len() ==> rows[a].core_budget > rows[b].core_budget
}

/// The outcome at place `i` of `n`, where it is a success, is that of the
/// task with budget `n - i`.
pub open spec fn in_launch_order(outcomes: Seq<Result<BenchmarkResult, BenchmarkError>>, n: int) -> bool {
    forall|i: int|
        0 <= i < outcomes.len() && (#[trigger] outcomes[i]) is Ok ==> outcomes[i]->Ok_0.core_budget
            == n - i
}

/// Builds the report from the outcomes of a run.
pub fn report(outcomes: &Vec<Result<BenchmarkResult, BenchmarkError>>) -> (rows: Vec<ReportRow>)
    ensures
        rows@ == rows_of(outcomes@),
        rows.len() + failures(outcomes@) == outcomes.len(),
{
    let mut rows: Vec<ReportRow> = Vec::new();
    let mut i: usize = 0;
    while i < outcomes.len()
        invariant
            i <= outcomes.len(),
            rows@ == rows_of(outcomes@.take(i as int)),
        decreases outcomes.len() - i,
    {
        assert(outcomes@.take(i + 1).drop_last() =~= outcomes@.take(i as int));
        match outcomes[i] {
            Ok(result) => {
                rows.push(
                    ReportRow {
                        core_budget: result.core_budget,
                        duration_millis: result.duration_millis,
                    },
                );
            },
            Err(_) => {},
        }
        i += 1;
    }
    proof {
        assert(outcomes@.take(i as int) =~= outcomes@);
        lemma_failures_leave_the_rest(outcomes@);
    }
    rows
}

/// Failures cost their own rows and nothing else: the report has one row
/// less for each failure, every success has its row whatever became of the
/// other tasks, and every row is that of a success.
pub proof fn lemma_failures_leave_the_rest(outcomes: Seq<Result<BenchmarkResult, BenchmarkError>>)
    ensures
        rows_of(outcomes).len() + failures(outcomes) == outcomes.len(),
        forall|i: int|
            0 <= i < outcomes.len() && (#[trigger] outcomes[i]) is Ok ==> rows_of(
                outcomes,
            ).contains(row_of(outcomes[i]->Ok_0)),
        forall|k: int|
            0 <= k < rows_of(outcomes).len() ==> outcomes.contains(
                Ok::<BenchmarkResult, BenchmarkError>(result_of(#[trigger] rows_of(outcomes)[k])),
            ),
    decreases outcomes.len(),
{
    if outcomes.len() > 0 {
        let init = outcomes.drop_last();
        let prev = rows_of(init);
        let rows = rows_of(outcomes);
        let last = outcomes.len() - 1;
        lemma_failures_leave_the_rest(init);
        assert forall|i: int| 0 <= i < outcomes.len() && (#[trigger] outcomes[i]) is Ok implies rows.contains(
            row_of(outcomes[i]->Ok_0),
        ) by {
            if i < last {
                assert(init[i] == outcomes[i]);
                let row = row_of(outcomes[i]->Ok_0);
                let k = choose|k: int| 0 <= k < prev.len() && prev[k] == row;
                assert(rows[k] == row);
            } else {
                assert(rows[prev.len() as int] == row_of(outcomes[i]->Ok_0));
            }
        }
        assert forall|k: int| 0 <= k < rows.len() implies outcomes.contains(
            Ok::<BenchmarkResult, BenchmarkError>(result_of(#[trigger] rows[k])),
        ) by {
            let shown = Ok::<BenchmarkResult, BenchmarkError>(result_of(rows[k]));
            if k < prev.len() {
                assert(rows[k] == prev[k]);
                let i = choose|i: int| 0 <= i < init.len() && init[i] == shown;
                assert(outcomes[i] == shown);
            } else {
                assert(outcomes[last] == shown);
            }
        }
    }
}

/// No two rows share a budget: where each success stands at the place of
/// its task, the first of `n` tasks having budget `n` and the last budget
/// 1, the budgets of the report fall from row to row.
pub proof fn lemma_rows_have_distinct_budgets(
    outcomes: Seq<Result<BenchmarkResult, BenchmarkError>>,
    n: int,
)
    requires
        outcomes.len() <= n,
        in_launch_order(outcomes, n),
    ensures
        descending(rows_of(outcomes)),
        forall|k: int|
            0 <= k < rows_of(outcomes).len() ==> n - outcomes.len() < (#[trigger] rows_of(
                outcomes,
            )[k]).core_budget <= n,
    decreases outcomes.len(),
{
    if outcomes.len() > 0 {
        let init = outcomes.drop_last();
        assert forall|i: int| 0 <= i < init.len() && (#[trigger] init[i]) is Ok implies init[i]->Ok_0.core_budget
            == n - i by {
            assert(init[i] == outcomes[i]);
        }
        lemma_rows_have_distinct_budgets(init, n);
        let prev = rows_of(init);
        let rows = rows_of(outcomes);
        assert forall|k: int| 0 <= k < rows.len() implies n - outcomes.len() < (#[trigger] rows[k]).core_budget
            <= n by {
            if k < prev.len() {
                assert(rows[k] == prev[k]);
            }
        }
        assert forall|a: int, b: int| 0 <= a < b < rows.len() implies rows[a].core_budget
            > rows[b].core_budget by {
            assert(rows[a] == prev[a]);
            if b < prev.len() {
                assert(rows[b] == prev[b]);
            }
        }
    }
}

/// Two runs in which the same tasks succeed report the same budgets in
/// the same order, whatever times they measured.
pub proof fn lemma_same_successes_same_budgets(
    first: Seq<Result<BenchmarkResult, BenchmarkError>>,
    second: Seq<Result<BenchmarkResult, BenchmarkError>>,
)
    requires
        first.len() == second.len(),
        forall|i: int| 0 <= i < first.len() ==> (first[i] is Ok <==> second[i] is Ok),
        forall|i: int|
            0 <= i < first.len() && first[i] is Ok ==> first[i]->Ok_0.core_budget
                == second[i]->Ok_0.core_budget,
    ensures
        budgets_of(rows_of(first)) == budgets_of(rows_of(second)),
    decreases first.len(),
{
    if first.len() > 0 {
        let a = first.drop_last();
        let b = second.drop_last();
        assert forall|i: int| 0 <= i < a.len() implies (a[i] is Ok <==> b[i] is Ok) && (a[i] is Ok
            ==> a[i]->Ok_0.core_budget == b[i]->Ok_0.core_budget) by {
            assert(a[i] == first[i] && b[i] == second[i]);
        }
        lemma_same_successes_same_budgets(a, b);
        let x = budgets_of(rows_of(a));
        let y = budgets_of(rows_of(b));
        assert(x.len() == rows_of(a).len() && y.len() == rows_of(b).len());
        let last = first.len() - 1;
        assert(first[last] is Ok <==> second[last] is Ok);
        if first[last] is Ok {
            assert(budgets_of(rows_of(first)) =~= x.push(first[last]->Ok_0.core_budget));
            assert(budgets_of(rows_of(second)) =~= y.push(second[last]->Ok_0.core_budget));
        }
    }
    assert(budgets_of(rows_of(first)) =~= budgets_of(rows_of(second)));
}

} // verus!

use baywatch::report::{report, ReportRow};
use baywatch::table::report_table;
use baywatch::task::{BenchmarkError, BenchmarkResult};

fn csv_of(table: &prettytable::Table) -> String {
    let written = table.to_csv(Vec::new()).unwrap().into_inner().unwrap();
    String::from_utf8(written).unwrap()
}

#[test]
fn table_has_one_line_for_each_row() {
    let rows = vec![
        ReportRow { core_budget: 4, duration_millis: 55 },
        ReportRow { core_budget: 2, duration_millis: 80 },
        ReportRow { core_budget: 1, duration_millis: 120 },
    ];
    let table = report_table(&rows);
    assert_eq!(table.len(), 3);
    let cell = |row: usize, col: usize| {
        table.get_row(row).unwrap().get_cell(col).unwrap().get_content()
    };
    assert_eq!(cell(0, 0), "4");
    assert_eq!(cell(0, 1), "55");
    assert_eq!(cell(1, 0), "2");
    assert_eq!(cell(1, 1), "80");
    assert_eq!(cell(2, 0), "1");
    assert_eq!(cell(2, 1), "120");
    assert_eq!(table.get_row(0).unwrap().len(), 2);
}

#[test]
fn table_as_csv_starts_with_the_titles() {
    let rows = vec![
        ReportRow { core_budget: 2, duration_millis: 80 },
        ReportRow { core_budget: 1, duration_millis: 120 },
    ];
    assert_eq!(csv_of(&report_table(&rows)), "CPU,DURATION (ms)\n2,80\n1,120\n");
}

#[test]
fn table_of_no_rows_has_only_titles() {
    let table = report_table(&Vec::new());
    assert_eq!(table.len(), 0);
    assert_eq!(csv_of(&table), "CPU,DURATION (ms)\n");
}

#[test]
fn table_holds_the_largest_numbers_in_full() {
    let rows = vec![ReportRow { core_budget: u64::MAX, duration_millis: 0 }];
    assert_eq!(csv_of(&report_table(&rows)), "CPU,DURATION (ms)\n18446744073709551615,0\n");
}

#[test]
fn failed_tasks_have_no_line_in_the_table() {
    let outcomes = vec![
        Ok(BenchmarkResult { core_budget: 3, duration_millis: 7 }),
        Err(BenchmarkError::ExecutionError),
        Ok(BenchmarkResult { core_budget: 1, duration_millis: 21 }),
    ];
    let table = report_table(&report(&outcomes));
    assert_eq!(csv_of(&table), "CPU,DURATION (ms)\n3,7\n1,21\n");
}

#[test]
fn table_prints_titles_above_the_rows() {
    let text = report_table(&vec![ReportRow { core_budget: 8, duration_millis: 31 }]).to_string();
    let cpu = text.find("CPU").unwrap();
    let duration = text.find("DURATION (ms)").unwrap();
    let eight = text.find(" 8 ").unwrap();
    assert!(cpu < duration);
    assert!(duration < eight);
    assert!(text.contains(" 31 "));
}

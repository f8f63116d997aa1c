//! The report as a printable table.

use vstd::prelude::*;
use prettytable::{Cell, Row, Table};
use crate::decimal::{decimal, decimal_text, lemma_decimal_is_digits};
use crate::report::ReportRow;

verus! {

#[verifier::external_type_specification]
#[verifier::external_body]
pub struct ExTable(prettytable::Table);

/// The rows of a table below its titles: for each row the texts of its
/// cells.
pub uninterp spec fn table_rows(table: Table) -> Seq<Seq<Seq<char>>>;

/// The texts of the title cells of a table; empty where it has no titles.
pub uninterp spec fn table_titles(table: Table) -> Seq<Seq<char>>;

/// Whether `text` is made of printable ASCII characters alone, those from
/// the space to the tilde: it then is one line and holds no escape
/// sequence.
pub open spec fn plain(text: Seq<char>) -> bool {
    forall|i: int| 0 <= i < text.len() ==> 32 <= (#[trigger] text[i]) as u32 <= 126
}

/// The texts of the title cells of the report.
pub open spec fn report_titles() -> Seq<Seq<char>> {
    seq!["CPU"@, "DURATION (ms)"@]
}

/// The texts of the cells that show `row`: its two numbers in decimal.
pub open spec fn cells_of_row(row: ReportRow) -> Seq<Seq<char>> {
    seq![decimal(row.core_budget as nat), decimal(row.duration_millis as nat)]
}

/// `prettytable::Table::new`: the table it makes has no titles and no rows.
#[verifier::external_body]
fn empty_table() -> (table: Table)
    ensures
        table_rows(table) == Seq::<Seq<Seq<char>>>::empty(),
        table_titles(table) == Seq::<Seq<char>>::empty(),
{
    Table::new()
}

/// `prettytable::Table::set_titles`, with a row of two cells made by
/// `Cell::new`: the titles become the two texts, the rows stay. `Cell::new`
/// takes a text of printable ASCII characters as one line, finds no escape
/// sequence in it when it measures its width, and keeps it as it is.
#[verifier::external_body]
fn set_titles(table: &mut Table, first: &str, second: &str)
    requires
        plain(first@),
        plain(second@),
    ensures
        table_titles(*final(table)) == seq![first@, second@],
        table_rows(*final(table)) == table_rows(*old(table)),
{
    table.set_titles(Row::new(vec![Cell::new(first), Cell::new(second)]));
}

/// `prettytable::Table::add_row`, with a row of two cells made by
/// `Cell::new`: the row is appended below the others, the titles stay.
/// `Cell::new` takes a text of printable ASCII characters as one line, finds
/// no escape sequence in it when it measures its width, and keeps it as it
/// is.
#[verifier::external_body]
fn add_row(table: &mut Table, first: &str, second: &str)
    requires
        plain(first@),
        plain(second@),
    ensures
        table_rows(*final(table)) == table_rows(*old(table)).push(seq![first@, second@]),
        table_titles(*final(table)) == table_titles(*old(table)),
{
    table.add_row(Row::new(vec![Cell::new(first), Cell::new(second)]));
}

/// The table of the report: under the titles `CPU` and `DURATION (ms)`, one
/// line for each row, in the order of the rows, with the row's two numbers
/// in decimal.
pub fn report_table(rows: &Vec<ReportRow>) -> (table: Table)
    ensures
        table_titles(table) == report_titles(),
        table_rows(table) == Seq::new(rows.len() as nat, |i: int| cells_of_row(rows[i])),
{
    let mut table = empty_table();
    proof {
        reveal_strlit("CPU");
        reveal_strlit("DURATION (ms)");
        assert(plain("CPU"@));
        assert(plain("DURATION (ms)"@));
    }
    set_titles(&mut table, "CPU", "DURATION (ms)");
    let mut i: usize = 0;
    while i < rows.len()
        invariant
            i <= rows.len(),
            table_titles(table) == report_titles(),
            table_rows(table) == Seq::new(i as nat, |k: int| cells_of_row(rows[k])),
        decreases rows.len() - i,
    {
        let core_budget = decimal_text(rows[i].core_budget);
        let duration = decimal_text(rows[i].duration_millis);
        proof {
            lemma_decimal_is_digits(rows[i as int].core_budget as nat);
            lemma_decimal_is_digits(rows[i as int].duration_millis as nat);
        }
        add_row(&mut table, core_budget.as_str(), duration.as_str());
        assert(table_rows(table) =~= Seq::new((i + 1) as nat, |k: int| cells_of_row(rows[k])));
        i += 1;
    }
    table
}

} // verus!

use ledger_bench::csv::load_csv;
use ledger_bench::group::aggregate;
use ledger_bench::output::render_pivot;
use ledger_bench::pivot::{pivot_aggregation, PivotError};
use ledger_bench::process::add_month_column;
use ledger_bench::table::{AggTable, GroupKey, Grouping};

const SCENARIO: &str = "Date,Amount,Account,Department\n\
2020-01-05,100.00,Sales,Sales\n\
2020-01-20,50.00,Sales,Sales\n\
2020-02-01,30.00,Expenses,HR\n";

fn account_month() -> AggTable {
    let t = add_month_column(&load_csv(SCENARIO.as_bytes()).unwrap());
    aggregate(Grouping::AccountMonth, &t).unwrap()
}

#[test]
fn pivot_by_account_spreads_months_into_columns() {
    let p = pivot_aggregation(&account_month(), Grouping::Account).unwrap();
    assert_eq!(p.months, vec![1, 2]);
    assert_eq!(p.keys.len(), 2);
    assert_eq!(p.cells, vec![vec![15000, 0], vec![0, 3000]]);
    assert_eq!(
        String::from_utf8(render_pivot(&p)).unwrap(),
        "Account,Month_1,Month_2\nSales,150.00,0.00\nExpenses,0.00,30.00\n"
    );
}

#[test]
fn pivot_needs_month_and_key_columns() {
    let t = add_month_column(&load_csv(SCENARIO.as_bytes()).unwrap());
    let totals = aggregate(Grouping::Account, &t).unwrap();
    assert_eq!(pivot_aggregation(&totals, Grouping::Account).err(), Some(PivotError::MissingColumn));
    assert_eq!(
        pivot_aggregation(&account_month(), Grouping::Department).err(),
        Some(PivotError::MissingColumn)
    );
}

#[test]
fn pivot_reports_overflow() {
    let key = |m: u32| GroupKey { account: Some(b"Sales".to_vec()), department: None, period: Some(Some(m)) };
    let a = AggTable { grouping: Grouping::AccountMonth, keys: vec![key(1), key(2)], totals: vec![i128::MAX, 1] };
    assert_eq!(pivot_aggregation(&a, Grouping::Account).err(), Some(PivotError::Overflow));
}

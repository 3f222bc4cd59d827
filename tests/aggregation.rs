use ledger_bench::aggregator::{get_all_aggregators, AccountMonthAggregator, Aggregator};
use ledger_bench::csv::{load_csv, load_csv_with, parse_amount, LoadError};
use ledger_bench::group::aggregate;
use ledger_bench::output::render_result;
use ledger_bench::process::{add_month_column, derive_period, DateError};
use ledger_bench::table::{AggTable, Grouping, ShapeError, Table};

const SCENARIO: &str = "Date,Amount,Account,Department\n\
2020-01-05,100.00,Sales,Sales\n\
2020-01-20,50.00,Sales,Sales\n\
2020-02-01,30.00,Expenses,HR\n";

fn loaded(text: &str) -> Table {
    add_month_column(&load_csv(text.as_bytes()).unwrap())
}

fn rendered(a: &AggTable) -> String {
    String::from_utf8(render_result(a)).unwrap()
}

#[test]
fn account_month_scenario() {
    let t = loaded(SCENARIO);
    let a = aggregate(Grouping::AccountMonth, &t).unwrap();
    assert_eq!(a.keys.len(), 2);
    assert_eq!(a.keys[0].account, Some(b"Sales".to_vec()));
    assert_eq!(a.keys[0].department, None);
    assert_eq!(a.keys[0].period, Some(Some(1)));
    assert_eq!(a.totals[0], 15000);
    assert_eq!(a.keys[1].account, Some(b"Expenses".to_vec()));
    assert_eq!(a.keys[1].period, Some(Some(2)));
    assert_eq!(a.totals[1], 3000);
    assert_eq!(rendered(&a), "Account,Month,Total\nSales,1,150.00\nExpenses,2,30.00\n");
}

#[test]
fn trait_aggregate_matches_grouping() {
    let t = loaded(SCENARIO);
    let a = AccountMonthAggregator.aggregate(&t).unwrap();
    assert_eq!(AccountMonthAggregator.grouping(), Grouping::AccountMonth);
    assert_eq!(rendered(&a), "Account,Month,Total\nSales,1,150.00\nExpenses,2,30.00\n");
}

#[test]
fn every_grouping_conserves_the_total() {
    let t = loaded(SCENARIO);
    for g in get_all_aggregators() {
        let a = aggregate(g, &t).unwrap();
        let sum: i128 = a.totals.iter().sum();
        assert_eq!(sum, 18000);
    }
}

#[test]
fn group_keys_are_unique() {
    let text = "Date,Amount,Account,Department\n\
2020-03-01,1.00,Sales,HR\n\
2020-03-02,2.00,Assets,HR\n\
2020-04-01,3.00,Sales,Finance\n\
2020-03-09,4.00,Sales,HR\n";
    let t = loaded(text);
    for g in get_all_aggregators() {
        let a = aggregate(g, &t).unwrap();
        for i in 0..a.keys.len() {
            for j in 0..a.keys.len() {
                if i != j {
                    let same = a.keys[i].account == a.keys[j].account
                        && a.keys[i].department == a.keys[j].department
                        && a.keys[i].period == a.keys[j].period;
                    assert!(!same);
                }
            }
        }
    }
    let d = aggregate(Grouping::Department, &t).unwrap();
    assert_eq!(rendered(&d), "Department,Total\nHR,7.00\nFinance,3.00\n");
    let m = aggregate(Grouping::Month, &t).unwrap();
    assert_eq!(rendered(&m), "Month,Total\n3,7.00\n4,3.00\n");
    let adm = aggregate(Grouping::AccountDepartmentMonth, &t).unwrap();
    assert_eq!(
        rendered(&adm),
        "Account,Department,Month,Total\nSales,HR,3,5.00\nAssets,HR,3,2.00\nSales,Finance,4,3.00\n"
    );
}

#[test]
fn aggregation_is_idempotent() {
    let t = loaded(SCENARIO);
    for g in get_all_aggregators() {
        let a = aggregate(g, &t).unwrap();
        let b = aggregate(g, &t).unwrap();
        assert_eq!(a.totals, b.totals);
        assert_eq!(rendered(&a), rendered(&b));
    }
}

#[test]
fn grouping_by_period_needs_the_period_column() {
    let t = load_csv(SCENARIO.as_bytes()).unwrap();
    assert!(!t.has_period);
    assert_eq!(aggregate(Grouping::AccountMonth, &t).err(), Some(ShapeError::MissingPeriod));
    assert_eq!(aggregate(Grouping::Month, &t).err(), Some(ShapeError::MissingPeriod));
    let a = aggregate(Grouping::Account, &t).unwrap();
    assert_eq!(rendered(&a), "Account,Total\nSales,150.00\nExpenses,30.00\n");
}

#[test]
fn malformed_date_permissive_gives_missing_period() {
    let text = "Date,Amount,Account,Department\nnot-a-date,5.00,Sales,HR\n2020-07-04,1.50,Sales,HR\n";
    let t = load_csv(text.as_bytes()).unwrap();
    let p = derive_period(&t, false).unwrap();
    assert_eq!(p.records[0].period, None);
    assert_eq!(p.records[1].period, Some(7));
    let a = aggregate(Grouping::AccountMonth, &p).unwrap();
    assert_eq!(rendered(&a), "Account,Month,Total\nSales,,5.00\nSales,7,1.50\n");
}

#[test]
fn malformed_date_strict_fails() {
    let text = "Date,Amount,Account,Department\n2020-07-04,1.50,Sales,HR\nnot-a-date,5.00,Sales,HR\n";
    let t = load_csv(text.as_bytes()).unwrap();
    assert_eq!(derive_period(&t, true).err(), Some(DateError::Unparseable(1)));
}

#[test]
fn strict_mode_accepts_valid_dates() {
    let t = load_csv(SCENARIO.as_bytes()).unwrap();
    let p = derive_period(&t, true).unwrap();
    assert!(p.has_period);
    assert_eq!(p.records[2].period, Some(2));
}

#[test]
fn impossible_calendar_date_has_no_period() {
    let text = "Date,Amount,Account,Department\n2021-02-30,1.00,Sales,HR\n";
    let t = load_csv(text.as_bytes()).unwrap();
    assert_eq!(add_month_column(&t).records[0].period, None);
}

#[test]
fn load_rejects_a_wrong_header() {
    let text = "Day,Amount,Account,Department\n2020-01-05,1.00,Sales,Sales\n";
    assert_eq!(load_csv(text.as_bytes()).err(), Some(LoadError::BadHeader));
}

#[test]
fn load_rejects_a_bad_amount() {
    let text = "Date,Amount,Account,Department\n2020-01-05,1.00,Sales,Sales\n2020-01-06,abc,Sales,Sales\n";
    assert_eq!(load_csv(text.as_bytes()).err(), Some(LoadError::BadRow(2)));
}

#[test]
fn load_rejects_a_short_row() {
    let text = "Date,Amount,Account,Department\n2020-01-05,1.00,Sales\n";
    assert_eq!(load_csv(text.as_bytes()).err(), Some(LoadError::BadRow(1)));
}

#[test]
fn load_skips_empty_lines_and_keeps_missing_amounts() {
    let text = "Date,Amount,Account,Department\n\n2020-01-05,,Sales,Sales\n2020-01-06,-2.5,Sales,Sales\n";
    let t = load_csv(text.as_bytes()).unwrap();
    assert_eq!(t.records.len(), 2);
    assert_eq!(t.records[0].amount, None);
    assert_eq!(t.records[1].amount, Some(-250));
    let a = aggregate(Grouping::Account, &t).unwrap();
    assert_eq!(rendered(&a), "Account,Total\nSales,-2.50\n");
}

#[test]
fn empty_table_gives_empty_result() {
    let t = loaded("Date,Amount,Account,Department\n");
    assert_eq!(t.records.len(), 0);
    let a = aggregate(Grouping::AccountMonth, &t).unwrap();
    assert_eq!(a.keys.len(), 0);
    assert_eq!(rendered(&a), "Account,Month,Total\n");
}

#[test]
fn amounts_parse_to_cents() {
    assert_eq!(parse_amount(b"12"), Some(Some(1200)));
    assert_eq!(parse_amount(b"12.3"), Some(Some(1230)));
    assert_eq!(parse_amount(b"12.34"), Some(Some(1234)));
    assert_eq!(parse_amount(b"-0.05"), Some(Some(-5)));
    assert_eq!(parse_amount(b""), Some(None));
    assert_eq!(parse_amount(b"12.345"), Some(Some(1235)));
    assert_eq!(parse_amount(b"12.3449"), Some(Some(1234)));
    assert_eq!(parse_amount(b"0.999"), Some(Some(100)));
    assert_eq!(parse_amount(b"12."), None);
    assert_eq!(parse_amount(b".5"), None);
    assert_eq!(parse_amount(b"1.2.3"), None);
    assert_eq!(parse_amount(b"999999999999999.99"), Some(Some(99999999999999999)));
    assert_eq!(parse_amount(b"1000000000000000"), None);
}

#[test]
fn permissive_amounts_become_missing() {
    let text = "Date,Amount,Account,Department\n2020-01-05,abc,Sales,Sales\n2020-01-06,2.00,Sales,Sales\n";
    assert_eq!(load_csv_with(text.as_bytes(), true).err(), Some(LoadError::BadRow(1)));
    let t = load_csv_with(text.as_bytes(), false).unwrap();
    assert_eq!(t.records[0].amount, None);
    assert_eq!(t.records[1].amount, Some(200));
    let a = aggregate(Grouping::Account, &t).unwrap();
    assert_eq!(rendered(&a), "Account,Total\nSales,2.00\n");
    let short = "Date,Amount,Account,Department\n2020-01-05,1.00\n";
    assert_eq!(load_csv_with(short.as_bytes(), false).err(), Some(LoadError::BadRow(1)));
}

#[test]
fn missing_periods_form_one_group() {
    let text = "Date,Amount,Account,Department\nnot-a-date,5.00,Sales,HR\n2020-07-04,1.50,Sales,HR\nbad,2.25,Assets,HR\n";
    let t = loaded(text);
    for r in &t.records {
        if let Some(m) = r.period {
            assert!((1..=12).contains(&m));
        }
    }
    let a = aggregate(Grouping::Month, &t).unwrap();
    assert_eq!(rendered(&a), "Month,Total\n,7.25\n7,1.50\n");
}

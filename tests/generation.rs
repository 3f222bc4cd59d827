use ledger_bench::csv::load_csv;
use ledger_bench::data_generator::{
    generate_csv, generate_rows, parse_date_range, render_dataset, render_row, ConfigError,
    GeneratedRow,
};

const ACCOUNTS: [&str; 4] = ["Sales", "Expenses", "Assets", "Liabilities"];
const DEPARTMENTS: [&str; 4] = ["Sales", "Development", "HR", "Finance"];

#[test]
fn generated_dataset_has_header_and_rows_in_range() {
    let (s, e) = parse_date_range(b"2020-01-01", b"2020-03-31").unwrap();
    let lines = generate_csv(50, s.day_number, e.day_number).unwrap();
    assert_eq!(lines.len(), 51);
    assert_eq!(lines[0], b"Date,Amount,Account,Department".to_vec());
    let text = lines.join(&b'\n');
    let t = load_csv(&text).unwrap();
    assert_eq!(t.records.len(), 50);
    for r in &t.records {
        let d = String::from_utf8(r.date.clone()).unwrap();
        assert!(d.as_str() >= "2020-01-01" && d.as_str() <= "2020-03-31");
        let a = r.amount.unwrap();
        assert!((1000..100000).contains(&a));
        assert!(ACCOUNTS.contains(&String::from_utf8(r.account.clone()).unwrap().as_str()));
        assert!(DEPARTMENTS.contains(&String::from_utf8(r.department.clone()).unwrap().as_str()));
    }
}

#[test]
fn generated_rows_stay_in_bounds() {
    let rows = generate_rows(200, 737425, 737427);
    assert_eq!(rows.len(), 200);
    for r in &rows {
        assert!(r.day_number >= 737425 && r.day_number <= 737427);
        assert!(r.amount_cents >= 1000 && r.amount_cents < 100000);
        assert!(r.account < 4 && r.department < 4);
    }
}

#[test]
fn zero_rows_gives_only_the_header() {
    let lines = generate_csv(0, 737425, 737790).unwrap();
    assert_eq!(lines.len(), 1);
}

#[test]
fn row_renders_with_two_decimals() {
    let r = GeneratedRow { day_number: 737425, amount_cents: 1005, account: 3, department: 1 };
    assert_eq!(render_row(&r).unwrap(), b"2020-01-01,10.05,Liabilities,Development".to_vec());
    let r2 = GeneratedRow { day_number: 737456, amount_cents: 99999, account: 0, department: 2 };
    assert_eq!(render_row(&r2).unwrap(), b"2020-02-01,999.99,Sales,HR".to_vec());
}

#[test]
fn dataset_fails_for_a_day_out_of_range() {
    let r = GeneratedRow { day_number: i32::MAX, amount_cents: 1005, account: 0, department: 0 };
    assert_eq!(render_row(&r), None);
    assert_eq!(render_dataset(&vec![r]), None);
}

#[test]
fn date_range_is_checked() {
    let (s, e) = parse_date_range(b"2020-01-01", b"2020-12-31").unwrap();
    assert_eq!((s.year, s.month, s.day), (2020, 1, 1));
    assert_eq!(s.day_number, 737425);
    assert_eq!((e.year, e.month, e.day), (2020, 12, 31));
    assert_eq!(parse_date_range(b"2020-13-01", b"2020-12-31").err(), Some(ConfigError::BadStartDate));
    assert_eq!(parse_date_range(b"2020-01-01", b"soon").err(), Some(ConfigError::BadEndDate));
    assert_eq!(parse_date_range(b"2020-05-01", b"2020-05-01").err(), Some(ConfigError::EmptyRange));
    assert_eq!(parse_date_range(b"2020-05-02", b"2020-05-01").err(), Some(ConfigError::EmptyRange));
}

#[test]
fn zero_rows_over_a_year_gives_exactly_the_header() {
    let (s, e) = parse_date_range(b"2020-01-01", b"2020-12-31").unwrap();
    let lines = generate_csv(0, s.day_number, e.day_number).unwrap();
    assert_eq!(lines, vec![b"Date,Amount,Account,Department".to_vec()]);
}

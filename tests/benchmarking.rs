use ledger_bench::aggregator::get_all_aggregators;
use ledger_bench::benchmark_framework::{
    fastest_and_slowest, run_aggregation_with_io, speed_ratio, BenchmarkFramework,
    BenchmarkResult, PassError,
};
use ledger_bench::csv::LoadError;
use ledger_bench::output::render_result;
use ledger_bench::table::Grouping;

fn result(name: &str, total: u64, processing: u64) -> BenchmarkResult {
    BenchmarkResult::new(name.to_string(), total, processing)
}

#[test]
fn io_time_is_total_minus_processing() {
    let r = result("a", 900, 400);
    assert_eq!(r.io_time_ns, 500);
    assert_eq!(r.name, "a");
}

#[test]
fn negative_io_time_is_kept() {
    let r = result("jitter", 5, 9);
    assert_eq!(r.io_time_ns, -4);
    assert_eq!(r.total_time_ns, 5);
    assert_eq!(r.processing_time_ns, 9);
}

#[test]
fn fastest_is_first_minimum_and_slowest_last_maximum() {
    let rs = vec![result("a", 10, 7), result("b", 10, 3), result("c", 10, 9), result("d", 10, 3), result("e", 10, 9)];
    assert_eq!(fastest_and_slowest(&rs), Some((1, 4)));
    assert_eq!(speed_ratio(&rs), Some((9, 3)));
}

#[test]
fn single_result_is_both_fastest_and_slowest() {
    let rs = vec![result("only", 10, 6)];
    assert_eq!(fastest_and_slowest(&rs), Some((0, 0)));
    assert_eq!(speed_ratio(&rs), Some((6, 6)));
}

#[test]
fn no_results_no_summary() {
    let rs: Vec<BenchmarkResult> = Vec::new();
    assert_eq!(fastest_and_slowest(&rs), None);
    assert_eq!(speed_ratio(&rs), None);
}

#[test]
fn framework_keeps_aggregators_in_order() {
    let f = BenchmarkFramework::new("data.csv".to_string())
        .add_aggregator(Grouping::Month)
        .add_aggregators(get_all_aggregators());
    assert_eq!(f.csv_path, "data.csv");
    assert_eq!(f.aggregators.len(), 7);
    assert_eq!(f.aggregators[0], Grouping::Month);
    assert_eq!(f.aggregators[1], Grouping::AccountMonth);
    assert_eq!(f.aggregators[6], Grouping::Department);
}

#[test]
fn all_aggregators_have_names_and_outputs() {
    let all = get_all_aggregators();
    assert_eq!(all.len(), 6);
    assert_eq!(all[0].name(), "Account × Monthly Aggregation");
    assert_eq!(all[0].output_file(), "../results/rust_account_month.csv");
    assert_eq!(all[5].output_file(), "../results/rust_department_total.csv");
}

#[test]
fn full_pass_loads_derives_and_aggregates() {
    let text = "Date,Amount,Account,Department\n2020-01-05,100.00,Sales,Sales\n2020-01-20,50.00,Sales,Sales\n2020-02-01,30.00,Expenses,HR\n";
    let a = run_aggregation_with_io(text.as_bytes(), Grouping::DepartmentMonth).unwrap();
    assert_eq!(
        String::from_utf8(render_result(&a)).unwrap(),
        "Department,Month,Total\nSales,1,150.00\nHR,2,30.00\n"
    );
}

#[test]
fn full_pass_reports_load_errors() {
    let r = run_aggregation_with_io(b"nope\n", Grouping::Account);
    assert_eq!(r.err(), Some(PassError::Load(LoadError::BadHeader)));
}

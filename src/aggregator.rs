use vstd::prelude::*;

use crate::group;
use crate::table::{grouped, AggTable, Grouping, ShapeError, Table};

verus! {

/// The display name of a grouping.
pub open spec fn display_name(g: Grouping) -> Seq<char> {
    match g {
        Grouping::AccountMonth => "Account × Monthly Aggregation"@,
        Grouping::DepartmentMonth => "Department × Monthly Aggregation"@,
        Grouping::AccountDepartmentMonth => "Account × Department × Monthly Aggregation"@,
        Grouping::Month => "Monthly Total Aggregation"@,
        Grouping::Account => "Account Total Aggregation"@,
        Grouping::Department => "Department Total Aggregation"@,
    }
}

/// The file that a grouping's result is written to.
pub open spec fn output_path(g: Grouping) -> Seq<char> {
    match g {
        Grouping::AccountMonth => "../results/rust_account_month.csv"@,
        Grouping::DepartmentMonth => "../results/rust_department_month.csv"@,
        Grouping::AccountDepartmentMonth => "../results/rust_account_dept_month.csv"@,
        Grouping::Month => "../results/rust_monthly_total.csv"@,
        Grouping::Account => "../results/rust_account_total.csv"@,
        Grouping::Department => "../results/rust_department_total.csv"@,
    }
}

impl Grouping {
    /// Name of the aggregation for display.
    pub fn name(&self) -> (r: &'static str)
        ensures
            r@ == display_name(*self),
    {
        match self {
            Grouping::AccountMonth => "Account × Monthly Aggregation",
            Grouping::DepartmentMonth => "Department × Monthly Aggregation",
            Grouping::AccountDepartmentMonth => "Account × Department × Monthly Aggregation",
            Grouping::Month => "Monthly Total Aggregation",
            Grouping::Account => "Account Total Aggregation",
            Grouping::Department => "Department Total Aggregation",
        }
    }

    /// Output file name for the results.
    pub fn output_file(&self) -> (r: &'static str)
        ensures
            r@ == output_path(*self),
    {
        match self {
            Grouping::AccountMonth => "../results/rust_account_month.csv",
            Grouping::DepartmentMonth => "../results/rust_department_month.csv",
            Grouping::AccountDepartmentMonth => "../results/rust_account_dept_month.csv",
            Grouping::Month => "../results/rust_monthly_total.csv",
            Grouping::Account => "../results/rust_account_total.csv",
            Grouping::Department => "../results/rust_department_total.csv",
        }
    }
}

/// A named aggregation over a loaded table.
pub trait Aggregator {
    spec fn grouping_spec(&self) -> Grouping;

    /// The columns this aggregation keys by.
    fn grouping(&self) -> (r: Grouping)
        ensures
            r == self.grouping_spec(),
    ;

    /// Name of the aggregation for display.
    fn name(&self) -> (r: &'static str)
        ensures
            r@ == display_name(self.grouping_spec()),
    ;

    /// Output file name for the results.
    fn output_file(&self) -> (r: &'static str)
        ensures
            r@ == output_path(self.grouping_spec()),
    ;

    /// Performs the aggregation on the given table.
    fn aggregate(&self, t: &Table) -> (r: Result<AggTable, ShapeError>)
        ensures
            self.grouping_spec().uses_period() && !t.has_period ==> r == Err::<AggTable, ShapeError>(
                ShapeError::MissingPeriod,
            ),
            !(self.grouping_spec().uses_period() && !t.has_period) ==> r is Ok,
            r matches Ok(a) ==> a.wf() && a.grouping == self.grouping_spec() && a.entries()
                == grouped(self.grouping_spec(), t.rows()),
    ;
}

/// Account × Month aggregation.
pub struct AccountMonthAggregator;

impl Aggregator for AccountMonthAggregator {
    open spec fn grouping_spec(&self) -> Grouping {
        Grouping::AccountMonth
    }

    fn grouping(&self) -> (r: Grouping) {
        Grouping::AccountMonth
    }

    fn name(&self) -> (r: &'static str) {
        Grouping::AccountMonth.name()
    }

    fn output_file(&self) -> (r: &'static str) {
        Grouping::AccountMonth.output_file()
    }

    fn aggregate(&self, t: &Table) -> (r: Result<AggTable, ShapeError>) {
        group::aggregate(Grouping::AccountMonth, t)
    }
}

/// Department × Month aggregation.
pub struct DepartmentMonthAggregator;

impl Aggregator for DepartmentMonthAggregator {
    open spec fn grouping_spec(&self) -> Grouping {
        Grouping::DepartmentMonth
    }

    fn grouping(&self) -> (r: Grouping) {
        Grouping::DepartmentMonth
    }

    fn name(&self) -> (r: &'static str) {
        Grouping::DepartmentMonth.name()
    }

    fn output_file(&self) -> (r: &'static str) {
        Grouping::DepartmentMonth.output_file()
    }

    fn aggregate(&self, t: &Table) -> (r: Result<AggTable, ShapeError>) {
        group::aggregate(Grouping::DepartmentMonth, t)
    }
}

/// Account × Department × Month aggregation.
pub struct AccountDepartmentMonthAggregator;

impl Aggregator for AccountDepartmentMonthAggregator {
    open spec fn grouping_spec(&self) -> Grouping {
        Grouping::AccountDepartmentMonth
    }

    fn grouping(&self) -> (r: Grouping) {
        Grouping::AccountDepartmentMonth
    }

    fn name(&self) -> (r: &'static str) {
        Grouping::AccountDepartmentMonth.name()
    }

    fn output_file(&self) -> (r: &'static str) {
        Grouping::AccountDepartmentMonth.output_file()
    }

    fn aggregate(&self, t: &Table) -> (r: Result<AggTable, ShapeError>) {
        group::aggregate(Grouping::AccountDepartmentMonth, t)
    }
}

/// Monthly total aggregation.
pub struct MonthlyTotalAggregator;

impl Aggregator for MonthlyTotalAggregator {
    open spec fn grouping_spec(&self) -> Grouping {
        Grouping::Month
    }

    fn grouping(&self) -> (r: Grouping) {
        Grouping::Month
    }

    fn name(&self) -> (r: &'static str) {
        Grouping::Month.name()
    }

    fn output_file(&self) -> (r: &'static str) {
        Grouping::Month.output_file()
    }

    fn aggregate(&self, t: &Table) -> (r: Result<AggTable, ShapeError>) {
        group::aggregate(Grouping::Month, t)
    }
}

/// Account total aggregation.
pub struct AccountTotalAggregator;

impl Aggregator for AccountTotalAggregator {
    open spec fn grouping_spec(&self) -> Grouping {
        Grouping::Account
    }

    fn grouping(&self) -> (r: Grouping) {
        Grouping::Account
    }

    fn name(&self) -> (r: &'static str) {
        Grouping::Account.name()
    }

    fn output_file(&self) -> (r: &'static str) {
        Grouping::Account.output_file()
    }

    fn aggregate(&self, t: &Table) -> (r: Result<AggTable, ShapeError>) {
        group::aggregate(Grouping::Account, t)
    }
}

/// Department total aggregation.
pub struct DepartmentTotalAggregator;

impl Aggregator for DepartmentTotalAggregator {
    open spec fn grouping_spec(&self) -> Grouping {
        Grouping::Department
    }

    fn grouping(&self) -> (r: Grouping) {
        Grouping::Department
    }

    fn name(&self) -> (r: &'static str) {
        Grouping::Department.name()
    }

    fn output_file(&self) -> (r: &'static str) {
        Grouping::Department.output_file()
    }

    fn aggregate(&self, t: &Table) -> (r: Result<AggTable, ShapeError>) {
        group::aggregate(Grouping::Department, t)
    }
}

/// All available aggregations, in the order they are benchmarked.
pub fn get_all_aggregators() -> (r: Vec<Grouping>)
    ensures
        r@ == seq![
            Grouping::AccountMonth,
            Grouping::DepartmentMonth,
            Grouping::AccountDepartmentMonth,
            Grouping::Month,
            Grouping::Account,
            Grouping::Department,
        ],
{
    let r = vec![
        Grouping::AccountMonth,
        Grouping::DepartmentMonth,
        Grouping::AccountDepartmentMonth,
        Grouping::Month,
        Grouping::Account,
        Grouping::Department,
    ];
    assert(r@ =~= seq![
        Grouping::AccountMonth,
        Grouping::DepartmentMonth,
        Grouping::AccountDepartmentMonth,
        Grouping::Month,
        Grouping::Account,
        Grouping::Department,
    ]);
    r
}

} // verus!

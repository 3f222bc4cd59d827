use vstd::prelude::*;

use crate::dates::{parse_date, parsed_date};
use crate::benchmark_framework::{run_aggregation_with_io, PassError};
use crate::csv::csv_rows;
use crate::group::aggregate;
use crate::table::{copy_bytes, grouped, records_view, AggTable, Grouping, Record, RecordView, ShapeError, Table};

verus! {

/// The period (calendar month) of a date text, if it denotes a date.
pub open spec fn period_of(date: Seq<u8>) -> Option<u32> {
    match parsed_date(date) {
        Some(t) => Some(t.1 as u32),
        None => None,
    }
}

/// A record with its period set from its date.
pub open spec fn with_period(r: RecordView) -> RecordView {
    RecordView { period: period_of(r.date), ..r }
}

/// Every present period is a month number, 1 to 12.
pub open spec fn periods_in_range(rows: Seq<RecordView>) -> bool {
    forall|i: int| 0 <= i < rows.len() ==> ((#[trigger] rows[i]).period matches Some(m) ==> 1 <= m <= 12)
}

/// Errors of date parsing in strict mode.
#[derive(Clone, Copy, PartialEq, Eq, Debug, Structural)]
pub enum DateError {
    /// The record at this index has a date that does not parse.
    Unparseable(usize),
}

/// Derives the period column from the date column.
///
/// In permissive mode (`strict == false`) a date that does not parse gives a
/// missing period. In strict mode the first such date fails the whole
/// operation, and its index is reported.
pub fn derive_period(t: &Table, strict: bool) -> (r: Result<Table, DateError>)
    ensures
        r matches Ok(u) ==> u.has_period && u.rows() == t.rows().map_values(
            |x: RecordView| with_period(x),
        ) && periods_in_range(u.rows()),
        r matches Err(DateError::Unparseable(i)) ==> strict && i < t.rows().len() && parsed_date(
            t.rows()[i as int].date,
        ) is None && forall|j: int| 0 <= j < i ==> parsed_date(t.rows()[j].date) is Some,
        r is Err <==> strict && exists|i: int|
            0 <= i < t.rows().len() && parsed_date(#[trigger] t.rows()[i].date) is None,
{
    let ghost rows = t.rows();
    let ghost target = rows.map_values(|x: RecordView| with_period(x));
    let mut out: Vec<Record> = Vec::new();
    let mut i: usize = 0;
    assert(records_view(out@) =~= Seq::<RecordView>::empty());
    while i < t.records.len()
        invariant
            rows == t.rows(),
            target == rows.map_values(|x: RecordView| with_period(x)),
            i <= t.records.len(),
            records_view(out@) == target.take(i as int),
            periods_in_range(records_view(out@)),
            strict ==> forall|j: int| 0 <= j < i ==> parsed_date(rows[j].date) is Some,
        decreases t.records.len() - i,
    {
        let rec = &t.records[i];
        let parsed = parse_date(rec.date.as_slice());
        let period = match parsed {
            Some(c) => Some(c.month),
            None => {
                if strict {
                    return Err(DateError::Unparseable(i));
                }
                None
            },
        };
        let new_rec = Record {
            date: copy_bytes(&rec.date),
            amount: rec.amount,
            account: copy_bytes(&rec.account),
            department: copy_bytes(&rec.department),
            period,
        };
        proof {
            assert(rec@ == rows[i as int]);
            assert(new_rec@ == with_period(rows[i as int]));
        }
        let ghost prev = out@;
        let ghost nv = new_rec@;
        out.push(new_rec);
        proof {
            assert(records_view(out@) =~= records_view(prev).push(nv));
            assert(target[i as int] == with_period(rows[i as int]));
            assert(records_view(out@) =~= target.take(i + 1));
            assert(periods_in_range(records_view(out@))) by {
                assert forall|j: int| 0 <= j < records_view(out@).len() implies ((
                #[trigger] records_view(out@)[j]).period matches Some(m) ==> 1 <= m <= 12) by {
                    if j < prev.len() {
                        assert(records_view(out@)[j] == records_view(prev)[j]);
                    }
                }
            }
        }
        i = i + 1;
    }
    proof {
        assert(target.take(i as int) =~= target);
    }
    Ok(Table { records: out, has_period: true })
}

/// Derives the period column in permissive mode, the default: a date that
/// does not parse gives a missing period.
pub fn add_month_column(t: &Table) -> (r: Table)
    ensures
        r.has_period,
        r.rows() == t.rows().map_values(|x: RecordView| with_period(x)),
        periods_in_range(r.rows()),
{
    match derive_period(t, false) {
        Ok(u) => u,
        Err(_) => Table { records: Vec::new(), has_period: true },
    }
}

/// Loads a table from its text, derives the period column (permissive), then
/// groups by Account and Month and sums the amounts.
pub fn aggregate_by_account_month(text: &[u8]) -> (r: Result<AggTable, PassError>)
    ensures
        csv_rows(text@) matches Err(e) ==> r == Err::<AggTable, PassError>(PassError::Load(e)),
        csv_rows(text@) matches Ok(rs) ==> (r matches Ok(a) && a.wf() && a.grouping == Grouping::AccountMonth
            && a.entries() == grouped(
            Grouping::AccountMonth,
            rs.map_values(|x: RecordView| with_period(x)),
        )),
{
    run_aggregation_with_io(text, Grouping::AccountMonth)
}

/// Derives the period column (permissive) of a loaded table, then groups by
/// Account and Month and sums the amounts.
pub fn aggregate_by_account_month_df(t: &Table) -> (r: Result<AggTable, ShapeError>)
    ensures
        r matches Ok(a) && a.wf() && a.grouping == Grouping::AccountMonth && a.entries() == grouped(
            Grouping::AccountMonth,
            t.rows().map_values(|x: RecordView| with_period(x)),
        ),
{
    let with_month = add_month_column(t);
    aggregate(Grouping::AccountMonth, &with_month)
}

/// Loads a table from its text, derives the period column (permissive), then
/// groups by Department and Month and sums the amounts.
pub fn aggregate_by_department_month(text: &[u8]) -> (r: Result<AggTable, PassError>)
    ensures
        csv_rows(text@) matches Err(e) ==> r == Err::<AggTable, PassError>(PassError::Load(e)),
        csv_rows(text@) matches Ok(rs) ==> (r matches Ok(a) && a.wf() && a.grouping == Grouping::DepartmentMonth
            && a.entries() == grouped(
            Grouping::DepartmentMonth,
            rs.map_values(|x: RecordView| with_period(x)),
        )),
{
    run_aggregation_with_io(text, Grouping::DepartmentMonth)
}

/// Derives the period column (permissive) of a loaded table, then groups by
/// Department and Month and sums the amounts.
pub fn aggregate_by_department_month_df(t: &Table) -> (r: Result<AggTable, ShapeError>)
    ensures
        r matches Ok(a) && a.wf() && a.grouping == Grouping::DepartmentMonth && a.entries() == grouped(
            Grouping::DepartmentMonth,
            t.rows().map_values(|x: RecordView| with_period(x)),
        ),
{
    let with_month = add_month_column(t);
    aggregate(Grouping::DepartmentMonth, &with_month)
}

/// Loads a table from its text, derives the period column (permissive), then
/// groups by Account, Department and Month and sums the amounts.
pub fn aggregate_by_account_department_month(text: &[u8]) -> (r: Result<AggTable, PassError>)
    ensures
        csv_rows(text@) matches Err(e) ==> r == Err::<AggTable, PassError>(PassError::Load(e)),
        csv_rows(text@) matches Ok(rs) ==> (r matches Ok(a) && a.wf() && a.grouping == Grouping::AccountDepartmentMonth
            && a.entries() == grouped(
            Grouping::AccountDepartmentMonth,
            rs.map_values(|x: RecordView| with_period(x)),
        )),
{
    run_aggregation_with_io(text, Grouping::AccountDepartmentMonth)
}

/// Derives the period column (permissive) of a loaded table, then groups by
/// Account, Department and Month and sums the amounts.
pub fn aggregate_by_account_department_month_df(t: &Table) -> (r: Result<AggTable, ShapeError>)
    ensures
        r matches Ok(a) && a.wf() && a.grouping == Grouping::AccountDepartmentMonth && a.entries() == grouped(
            Grouping::AccountDepartmentMonth,
            t.rows().map_values(|x: RecordView| with_period(x)),
        ),
{
    let with_month = add_month_column(t);
    aggregate(Grouping::AccountDepartmentMonth, &with_month)
}

} // verus!

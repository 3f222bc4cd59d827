use vstd::prelude::*;

use crate::csv::{csv_rows, load_csv, LoadError};
use crate::group::aggregate;
use crate::process::{add_month_column, with_period};
use crate::table::{grouped, AggTable, Grouping, RecordView, ShapeError};

verus! {

/// Timings of one aggregation, in nanoseconds.
///
/// `io_time_ns` is the end-to-end time minus the processing-only time. It is
/// not clamped: timing jitter can make it negative.
pub struct BenchmarkResult {
    pub name: String,
    pub total_time_ns: u64,
    pub processing_time_ns: u64,
    pub io_time_ns: i128,
}

impl BenchmarkResult {
    /// Records the timings of one aggregation, deriving the I/O overhead.
    pub fn new(name: String, total_time_ns: u64, processing_time_ns: u64) -> (r: BenchmarkResult)
        ensures
            r.name@ == name@,
            r.total_time_ns == total_time_ns,
            r.processing_time_ns == processing_time_ns,
            r.io_time_ns == total_time_ns as int - processing_time_ns as int,
    {
        let io_time_ns = total_time_ns as i128 - processing_time_ns as i128;
        BenchmarkResult { name, total_time_ns, processing_time_ns, io_time_ns }
    }
}

/// A data source and the ordered list of aggregations to benchmark over it.
pub struct BenchmarkFramework {
    pub csv_path: String,
    pub aggregators: Vec<Grouping>,
}

impl BenchmarkFramework {
    /// A framework over `csv_path` with no aggregation yet.
    pub fn new(csv_path: String) -> (r: Self)
        ensures
            r.csv_path@ == csv_path@,
            r.aggregators@.len() == 0,
    {
        BenchmarkFramework { csv_path, aggregators: Vec::new() }
    }

    /// Appends one aggregation to the list.
    pub fn add_aggregator(self, aggregator: Grouping) -> (r: Self)
        ensures
            r.csv_path@ == self.csv_path@,
            r.aggregators@ == self.aggregators@.push(aggregator),
    {
        let mut s = self;
        s.aggregators.push(aggregator);
        s
    }

    /// Appends several aggregations to the list, keeping their order.
    pub fn add_aggregators(self, aggregators: Vec<Grouping>) -> (r: Self)
        ensures
            r.csv_path@ == self.csv_path@,
            r.aggregators@ == self.aggregators@ + aggregators@,
    {
        let mut s = self;
        let mut more = aggregators;
        s.aggregators.append(&mut more);
        s
    }
}

/// Index of the fastest result by processing time: the first of the minimal ones.
pub open spec fn is_fastest(rs: Seq<BenchmarkResult>, f: int) -> bool {
    &&& 0 <= f < rs.len()
    &&& forall|j: int| 0 <= j < rs.len() ==> rs[f].processing_time_ns <= rs[j].processing_time_ns
    &&& forall|j: int| 0 <= j < f ==> rs[f].processing_time_ns < rs[j].processing_time_ns
}

/// Index of the slowest result by processing time: the last of the maximal ones.
pub open spec fn is_slowest(rs: Seq<BenchmarkResult>, s: int) -> bool {
    &&& 0 <= s < rs.len()
    &&& forall|j: int| 0 <= j < rs.len() ==> rs[j].processing_time_ns <= rs[s].processing_time_ns
    &&& forall|j: int| s < j < rs.len() ==> rs[j].processing_time_ns < rs[s].processing_time_ns
}

/// The fastest and the slowest result by processing time, as indices into
/// `results`; `None` when there is no result.
pub fn fastest_and_slowest(results: &Vec<BenchmarkResult>) -> (r: Option<(usize, usize)>)
    ensures
        r is None <==> results.len() == 0,
        r matches Some((f, s)) ==> is_fastest(results@, f as int) && is_slowest(
            results@,
            s as int,
        ),
{
    if results.len() == 0 {
        return None;
    }
    let mut f: usize = 0;
    let mut s: usize = 0;
    let mut i: usize = 1;
    while i < results.len()
        invariant
            1 <= i <= results.len(),
            is_fastest(results@.take(i as int), f as int),
            is_slowest(results@.take(i as int), s as int),
        decreases results.len() - i,
    {
        let t = results[i].processing_time_ns;
        if t < results[f].processing_time_ns {
            f = i;
        }
        if t >= results[s].processing_time_ns {
            s = i;
        }
        i = i + 1;
    }
    assert(results@.take(i as int) =~= results@);
    Some((f, s))
}

/// The speed ratio of the slowest to the fastest result, as the pair
/// (slowest processing time, fastest processing time); `None` when there is
/// no result. With a single result both are the same, a ratio of one.
pub fn speed_ratio(results: &Vec<BenchmarkResult>) -> (r: Option<(u64, u64)>)
    ensures
        r is None <==> results.len() == 0,
        r matches Some((num, den)) ==> exists|f: int, s: int|
            is_fastest(results@, f) && is_slowest(results@, s) && num
                == results@[s].processing_time_ns && den == results@[f].processing_time_ns,
{
    match fastest_and_slowest(results) {
        Some((f, s)) => Some((results[s].processing_time_ns, results[f].processing_time_ns)),
        None => None,
    }
}

/// Errors of one aggregation pass.
#[derive(Clone, Copy, PartialEq, Eq, Debug, Structural)]
pub enum PassError {
    Load(LoadError),
    Shape(ShapeError),
}

/// One full pass over a data source: loads the table from its text, derives
/// the period column (permissive), and aggregates it as `g` says.
///
/// Fails exactly when the text does not load.
pub fn run_aggregation_with_io(text: &[u8], g: Grouping) -> (r: Result<AggTable, PassError>)
    ensures
        csv_rows(text@) matches Err(e) ==> r == Err::<AggTable, PassError>(PassError::Load(e)),
        csv_rows(text@) matches Ok(rs) ==> (r matches Ok(a) && a.wf() && a.grouping == g
            && a.entries() == grouped(g, rs.map_values(|x: RecordView| with_period(x)))),
{
    let t = match load_csv(text) {
        Ok(t) => t,
        Err(e) => return Err(PassError::Load(e)),
    };
    let with_month = add_month_column(&t);
    match aggregate(g, &with_month) {
        Ok(a) => Ok(a),
        Err(e) => Err(PassError::Shape(e)),
    }
}

} // verus!

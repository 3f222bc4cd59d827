use vstd::prelude::*;

use crate::table::{copy_bytes, key_eq, AggTable, GroupKey, Grouping, KeyView};

verus! {

/// The elements of `s` in order of first appearance, each once.
pub open spec fn distinct_seq<A>(s: Seq<A>) -> Seq<A>
    decreases s.len(),
{
    if s.len() == 0 {
        Seq::empty()
    } else {
        let d = distinct_seq(s.drop_last());
        if d.contains(s.last()) {
            d
        } else {
            d.push(s.last())
        }
    }
}

proof fn lemma_distinct_seq_unique<A>(s: Seq<A>)
    ensures
        distinct_seq(s).no_duplicates(),
    decreases s.len(),
{
    if s.len() > 0 {
        lemma_distinct_seq_unique(s.drop_last());
        let d = distinct_seq(s.drop_last());
        if !d.contains(s.last()) {
            let e = d.push(s.last());
            assert forall|i: int, j: int| 0 <= i < e.len() && 0 <= j < e.len() && i != j implies e[i]
                != e[j] by {
                if j == d.len() {
                    assert(e[i] == d[i]);
                } else if i == d.len() {
                    assert(e[j] == d[j]);
                }
            }
        }
    }
}

proof fn lemma_distinct_seq_same_elements<A>(s: Seq<A>, x: A)
    ensures
        distinct_seq(s).contains(x) <==> s.contains(x),
    decreases s.len(),
{
    if s.len() > 0 {
        let p = s.drop_last();
        let d = distinct_seq(p);
        lemma_distinct_seq_same_elements(p, x);
        if s.contains(x) {
            let i = choose|i: int| 0 <= i < s.len() && s[i] == x;
            if i < p.len() {
                assert(p[i] == x);
                if !d.contains(s.last()) {
                    let j = choose|j: int| 0 <= j < d.len() && d[j] == x;
                    assert(d.push(s.last())[j] == x);
                }
            } else if !d.contains(s.last()) {
                assert(d.push(s.last())[d.len() as int] == x);
            }
        }
        if distinct_seq(s).contains(x) {
            let j = choose|j: int| 0 <= j < distinct_seq(s).len() && distinct_seq(s)[j] == x;
            if d.contains(s.last()) {
                assert(d[j] == x);
                let i = choose|i: int| 0 <= i < p.len() && p[i] == x;
                assert(s[i] == x);
            } else if j < d.len() {
                assert(d.push(s.last())[j] == d[j]);
                let i = choose|i: int| 0 <= i < p.len() && p[i] == x;
                assert(s[i] == x);
            } else {
                assert(s[s.len() - 1] == x);
            }
        }
    }
}

/// The rows of a pivot carry pairwise distinct keys, and their keys are
/// exactly the projected keys of the result's rows.
pub proof fn lemma_pivot_rows_unique(by: Grouping, es: Seq<(KeyView, int)>)
    ensures
        pivot_rows(by, es).no_duplicates(),
        forall|k: KeyView|
            pivot_rows(by, es).contains(k) <==> es.map_values(
                |e: (KeyView, int)| pivot_key(by, e.0),
            ).contains(k),
{
    let s = es.map_values(|e: (KeyView, int)| pivot_key(by, e.0));
    lemma_distinct_seq_unique(s);
    assert forall|k: KeyView| pivot_rows(by, es).contains(k) <==> s.contains(k) by {
        lemma_distinct_seq_same_elements(s, k);
    }
}

/// The row key of a pivot: the columns of `by` that are account or
/// department, taken from a result key.
pub open spec fn pivot_key(by: Grouping, k: KeyView) -> KeyView {
    KeyView {
        account: if by.uses_account() { k.account } else { None },
        department: if by.uses_department() { k.department } else { None },
        period: None,
    }
}

/// The pivot's rows: distinct row keys in order of first appearance.
pub open spec fn pivot_rows(by: Grouping, es: Seq<(KeyView, int)>) -> Seq<KeyView> {
    distinct_seq(es.map_values(|e: (KeyView, int)| pivot_key(by, e.0)))
}

/// The months present in a result, in order, with repeats.
pub open spec fn months_of(es: Seq<(KeyView, int)>) -> Seq<u32>
    decreases es.len(),
{
    if es.len() == 0 {
        Seq::empty()
    } else {
        let p = months_of(es.drop_last());
        match es.last().0.period {
            Some(Some(m)) => p.push(m),
            _ => p,
        }
    }
}

/// The pivot's month columns: distinct months in order of first appearance.
pub open spec fn pivot_months(es: Seq<(KeyView, int)>) -> Seq<u32> {
    distinct_seq(months_of(es))
}

/// Sum of the totals of the result rows with row key `k` and month `m`.
pub open spec fn cell_sum(by: Grouping, es: Seq<(KeyView, int)>, k: KeyView, m: u32) -> int
    decreases es.len(),
{
    if es.len() == 0 {
        0
    } else {
        cell_sum(by, es.drop_last(), k, m) + if pivot_key(by, es.last().0) == k
            && es.last().0.period == Some(Some(m)) {
            es.last().1
        } else {
            0
        }
    }
}

/// Sum of the magnitudes of the totals.
pub open spec fn magnitude_sum(es: Seq<(KeyView, int)>) -> int
    decreases es.len(),
{
    if es.len() == 0 {
        0
    } else {
        magnitude_sum(es.drop_last()) + if es.last().1 < 0 {
            -es.last().1
        } else {
            es.last().1
        }
    }
}

/// A pivoted result: `cells[i][j]` is the sum for row `keys[i]` in month
/// `months[j]`.
pub struct PivotTable {
    pub by: Grouping,
    pub keys: Vec<GroupKey>,
    pub months: Vec<u32>,
    pub cells: Vec<Vec<i128>>,
}

/// Errors of pivoting.
#[derive(Clone, Copy, PartialEq, Eq, Debug, Structural)]
pub enum PivotError {
    /// The result lacks the month column or a column that `by` names.
    MissingColumn,
    /// The magnitudes of the totals add up beyond what a cell can hold.
    Overflow,
}

pub open spec fn pivot_columns_present(a: AggTable, by: Grouping) -> bool {
    &&& a.grouping.uses_period()
    &&& by.uses_account() ==> a.grouping.uses_account()
    &&& by.uses_department() ==> a.grouping.uses_department()
}

proof fn lemma_magnitude_monotone(es: Seq<(KeyView, int)>, i: int)
    requires
        0 <= i <= es.len(),
    ensures
        0 <= magnitude_sum(es.take(i)) <= magnitude_sum(es),
    decreases es.len(),
{
    if i < es.len() {
        assert(es.drop_last().take(i) =~= es.take(i));
        lemma_magnitude_monotone(es.drop_last(), i);
    } else {
        assert(es.take(i) =~= es);
        if es.len() > 0 {
            lemma_magnitude_monotone(es.drop_last(), es.len() - 1);
            assert(es.drop_last().take(es.len() - 1) =~= es.drop_last());
        }
    }
}

proof fn lemma_cell_bound(by: Grouping, es: Seq<(KeyView, int)>, k: KeyView, m: u32)
    ensures
        -magnitude_sum(es) <= cell_sum(by, es, k, m) <= magnitude_sum(es),
    decreases es.len(),
{
    if es.len() > 0 {
        lemma_cell_bound(by, es.drop_last(), k, m);
    }
}

proof fn lemma_distinct_step<A>(s: Seq<A>, i: int)
    requires
        0 <= i < s.len(),
    ensures
        distinct_seq(s.take(i + 1)) == if distinct_seq(s.take(i)).contains(s[i]) {
            distinct_seq(s.take(i))
        } else {
            distinct_seq(s.take(i)).push(s[i])
        },
{
    assert(s.take(i + 1).drop_last() =~= s.take(i));
}

fn project_key(by: Grouping, k: &GroupKey) -> (r: GroupKey)
    ensures
        r@ == pivot_key(by, k@),
{
    let account = if by.by_account() {
        match &k.account {
            Some(v) => Some(copy_bytes(v)),
            None => None,
        }
    } else {
        None
    };
    let department = if by.by_department() {
        match &k.department {
            Some(v) => Some(copy_bytes(v)),
            None => None,
        }
    } else {
        None
    };
    GroupKey { account, department, period: None }
}

fn pivot_row_keys(by: Grouping, a: &AggTable) -> (r: Vec<GroupKey>)
    requires
        a.wf(),
    ensures
        r@.map_values(|k: GroupKey| k@) == pivot_rows(by, a.entries()),
{
    let ghost s = a.entries().map_values(|e: (KeyView, int)| pivot_key(by, e.0));
    let mut keys: Vec<GroupKey> = Vec::new();
    let mut i: usize = 0;
    proof {
        assert(s.take(0) =~= Seq::<KeyView>::empty());
        assert(keys@.map_values(|k: GroupKey| k@) =~= Seq::<KeyView>::empty());
    }
    while i < a.keys.len()
        invariant
            a.wf(),
            s == a.entries().map_values(|e: (KeyView, int)| pivot_key(by, e.0)),
            s.len() == a.keys.len(),
            i <= a.keys.len(),
            keys@.map_values(|k: GroupKey| k@) == distinct_seq(s.take(i as int)),
        decreases a.keys.len() - i,
    {
        let k = project_key(by, &a.keys[i]);
        let ghost d = distinct_seq(s.take(i as int));
        proof {
            lemma_distinct_step(s, i as int);
            assert(s[i as int] == k@);
        }
        let mut j: usize = 0;
        while j < keys.len() && !key_eq(&keys[j], &k)
            invariant
                j <= keys.len(),
                forall|jj: int| 0 <= jj < j ==> keys[jj]@ != k@,
            decreases keys.len() - j,
        {
            j = j + 1;
        }
        if j < keys.len() {
            proof {
                assert(d[j as int] == keys[j as int]@);
            }
        } else {
            proof {
                assert(!d.contains(k@)) by {
                    if d.contains(k@) {
                        let jj = choose|jj: int| 0 <= jj < d.len() && d[jj] == k@;
                        assert(keys[jj]@ == d[jj]);
                    }
                }
            }
            let ghost kv = keys@;
            keys.push(k);
            proof {
                assert(keys@.map_values(|k: GroupKey| k@) =~= kv.map_values(|k: GroupKey| k@).push(
                    k@,
                ));
            }
        }
        i = i + 1;
    }
    proof {
        assert(s.take(i as int) =~= s);
    }
    keys
}

fn pivot_month_columns(a: &AggTable) -> (r: Vec<u32>)
    requires
        a.wf(),
    ensures
        r@ == pivot_months(a.entries()),
{
    let ghost es = a.entries();
    let mut months: Vec<u32> = Vec::new();
    let mut i: usize = 0;
    proof {
        assert(es.take(0) =~= Seq::<(KeyView, int)>::empty());
    }
    while i < a.keys.len()
        invariant
            a.wf(),
            es == a.entries(),
            i <= a.keys.len(),
            months@ == distinct_seq(months_of(es.take(i as int))),
        decreases a.keys.len() - i,
    {
        let ghost p = months_of(es.take(i as int));
        proof {
            assert(es.take(i + 1).drop_last() =~= es.take(i as int));
            assert(es.take(i + 1).last() == es[i as int]);
        }
        match a.keys[i].period {
            Some(Some(m)) => {
                proof {
                    assert(months_of(es.take(i + 1)) == p.push(m));
                    assert(p.push(m).drop_last() =~= p);
                }
                let mut j: usize = 0;
                while j < months.len() && months[j] != m
                    invariant
                        j <= months.len(),
                        forall|jj: int| 0 <= jj < j ==> months[jj] != m,
                    decreases months.len() - j,
                {
                    j = j + 1;
                }
                if j == months.len() {
                    proof {
                        assert(!months@.contains(m));
                    }
                    months.push(m);
                } else {
                    proof {
                        assert(months@[j as int] == m);
                    }
                }
            },
            _ => {},
        }
        i = i + 1;
    }
    proof {
        assert(es.take(i as int) =~= es);
    }
    months
}

fn cell(by: Grouping, a: &AggTable, k: &GroupKey, m: u32) -> (r: i128)
    requires
        a.wf(),
        magnitude_sum(a.entries()) <= i128::MAX,
    ensures
        r == cell_sum(by, a.entries(), k@, m),
{
    let ghost es = a.entries();
    let mut acc: i128 = 0;
    let mut i: usize = 0;
    proof {
        assert(es.take(0) =~= Seq::<(KeyView, int)>::empty());
    }
    while i < a.keys.len()
        invariant
            a.wf(),
            es == a.entries(),
            magnitude_sum(es) <= i128::MAX,
            i <= a.keys.len(),
            acc == cell_sum(by, es.take(i as int), k@, m),
        decreases a.keys.len() - i,
    {
        let pk = project_key(by, &a.keys[i]);
        proof {
            assert(es.take(i + 1).drop_last() =~= es.take(i as int));
            assert(es.take(i + 1).last() == es[i as int]);
            lemma_cell_bound(by, es.take(i + 1), k@, m);
            lemma_magnitude_monotone(es, i + 1);
        }
        if key_eq(&pk, k) && a.keys[i].period == Some(Some(m)) {
            acc = acc + a.totals[i];
        }
        i = i + 1;
    }
    proof {
        assert(es.take(i as int) =~= es);
    }
    acc
}

fn magnitudes_fit(a: &AggTable) -> (r: bool)
    requires
        a.wf(),
    ensures
        r == (magnitude_sum(a.entries()) <= i128::MAX),
{
    let ghost es = a.entries();
    let mut acc: u128 = 0;
    let mut i: usize = 0;
    proof {
        assert(es.take(0) =~= Seq::<(KeyView, int)>::empty());
    }
    while i < a.keys.len()
        invariant
            a.wf(),
            es == a.entries(),
            i <= a.keys.len(),
            acc == magnitude_sum(es.take(i as int)),
            acc <= i128::MAX,
        decreases a.keys.len() - i,
    {
        let t = a.totals[i];
        let m: u128 = if t < 0 { (-(t + 1)) as u128 + 1 } else { t as u128 };
        proof {
            assert(es.take(i + 1).drop_last() =~= es.take(i as int));
            assert(es.take(i + 1).last() == es[i as int]);
            lemma_magnitude_monotone(es, i + 1);
        }
        if m > i128::MAX as u128 - acc {
            return false;
        }
        acc = acc + m;
        i = i + 1;
    }
    proof {
        assert(es.take(i as int) =~= es);
    }
    true
}

/// Pivots a month-keyed result: one row per distinct value of the columns of
/// `by` (account and department), one column per month present, each cell the
/// sum of the totals of that row and month (zero where there is none).
///
/// Fails with `MissingColumn` when the result lacks the month column or a
/// column of `by`, and with `Overflow` when the magnitudes of the totals add
/// up beyond `i128::MAX`.
pub fn pivot_aggregation(a: &AggTable, by: Grouping) -> (r: Result<PivotTable, PivotError>)
    requires
        a.wf(),
    ensures
        !pivot_columns_present(*a, by) ==> r == Err::<PivotTable, PivotError>(
            PivotError::MissingColumn,
        ),
        pivot_columns_present(*a, by) && magnitude_sum(a.entries()) > i128::MAX ==> r == Err::<
            PivotTable,
            PivotError,
        >(PivotError::Overflow),
        pivot_columns_present(*a, by) && magnitude_sum(a.entries()) <= i128::MAX ==> r is Ok,
        r matches Ok(p) ==> {
            &&& p.by == by
            &&& p.keys@.map_values(|k: GroupKey| k@) == pivot_rows(by, a.entries())
            &&& p.months@ == pivot_months(a.entries())
            &&& p.cells.len() == p.keys.len()
            &&& forall|i: int|
                0 <= i < p.cells.len() ==> (#[trigger] p.cells[i]).len() == p.months.len()
                    && forall|j: int|
                    0 <= j < p.months.len() ==> p.cells[i][j] == cell_sum(
                        by,
                        a.entries(),
                        p.keys[i]@,
                        p.months[j],
                    )
        },
{
    if !a.grouping.by_period() || (by.by_account() && !a.grouping.by_account()) || (
    by.by_department() && !a.grouping.by_department()) {
        return Err(PivotError::MissingColumn);
    }
    if !magnitudes_fit(a) {
        return Err(PivotError::Overflow);
    }
    let keys = pivot_row_keys(by, a);
    let months = pivot_month_columns(a);
    let mut cells: Vec<Vec<i128>> = Vec::new();
    let mut i: usize = 0;
    while i < keys.len()
        invariant
            a.wf(),
            magnitude_sum(a.entries()) <= i128::MAX,
            i <= keys.len(),
            cells.len() == i,
            forall|ii: int|
                0 <= ii < i ==> (#[trigger] cells[ii]).len() == months.len() && forall|j: int|
                    0 <= j < months.len() ==> cells[ii][j] == cell_sum(
                        by,
                        a.entries(),
                        keys[ii]@,
                        months[j],
                    ),
        decreases keys.len() - i,
    {
        let mut row: Vec<i128> = Vec::new();
        let mut j: usize = 0;
        while j < months.len()
            invariant
                a.wf(),
                magnitude_sum(a.entries()) <= i128::MAX,
                i < keys.len(),
                j <= months.len(),
                row.len() == j,
                forall|jj: int|
                    0 <= jj < j ==> row[jj] == cell_sum(by, a.entries(), keys[i as int]@, months[jj]),
            decreases months.len() - j,
        {
            let c = cell(by, a, &keys[i], months[j]);
            row.push(c);
            j = j + 1;
        }
        cells.push(row);
        i = i + 1;
    }
    Ok(PivotTable { by, keys, months, cells })
}

} // verus!

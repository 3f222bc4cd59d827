use vstd::prelude::*;

use crate::csv::bytes_views;
use crate::pivot::PivotTable;
use crate::table::{copy_bytes, AggTable, GroupKey, Grouping, KeyView};
use crate::text::{decimal, money_text, push_all, push_decimal, push_money};

verus! {

/// The column name "Account".
pub open spec fn account_column() -> Seq<u8> {
    seq![65u8, 99u8, 99u8, 111u8, 117u8, 110u8, 116u8]
}

fn account_column_bytes() -> (r: Vec<u8>)
    ensures
        r@ == account_column(),
{
    let r = vec![65u8, 99u8, 99u8, 111u8, 117u8, 110u8, 116u8];
    assert(r@ =~= account_column());
    r
}

/// The column name "Department".
pub open spec fn department_column() -> Seq<u8> {
    seq![68u8, 101u8, 112u8, 97u8, 114u8, 116u8, 109u8, 101u8, 110u8, 116u8]
}

fn department_column_bytes() -> (r: Vec<u8>)
    ensures
        r@ == department_column(),
{
    let r = vec![68u8, 101u8, 112u8, 97u8, 114u8, 116u8, 109u8, 101u8, 110u8, 116u8];
    assert(r@ =~= department_column());
    r
}

/// The column name "Month".
pub open spec fn month_column() -> Seq<u8> {
    seq![77u8, 111u8, 110u8, 116u8, 104u8]
}

fn month_column_bytes() -> (r: Vec<u8>)
    ensures
        r@ == month_column(),
{
    let r = vec![77u8, 111u8, 110u8, 116u8, 104u8];
    assert(r@ =~= month_column());
    r
}

/// The column name "Total".
pub open spec fn total_column() -> Seq<u8> {
    seq![84u8, 111u8, 116u8, 97u8, 108u8]
}

fn total_column_bytes() -> (r: Vec<u8>)
    ensures
        r@ == total_column(),
{
    let r = vec![84u8, 111u8, 116u8, 97u8, 108u8];
    assert(r@ =~= total_column());
    r
}

/// The header line of a result: the key columns that the grouping uses,
/// then "Total".
pub open spec fn result_header(g: Grouping) -> Seq<u8> {
    (if g.uses_account() { account_column() + seq![44u8] } else { Seq::empty() }) + (
    if g.uses_department() {
        department_column() + seq![44u8]
    } else {
        Seq::empty()
    }) + (if g.uses_period() { month_column() + seq![44u8] } else { Seq::empty() })
        + total_column() + seq![10u8]
}

/// The text of a period: its number, or nothing where it is missing.
pub open spec fn period_text(p: Option<u32>) -> Seq<u8> {
    match p {
        Some(m) => decimal(m as nat),
        None => Seq::empty(),
    }
}

/// One result line: the key's fields, then the total with two decimals.
pub open spec fn entry_line(e: (KeyView, int)) -> Seq<u8> {
    (match e.0.account {
        Some(a) => a + seq![44u8],
        None => Seq::empty(),
    }) + (match e.0.department {
        Some(d) => d + seq![44u8],
        None => Seq::empty(),
    }) + (match e.0.period {
        Some(p) => period_text(p) + seq![44u8],
        None => Seq::empty(),
    }) + money_text(e.1) + seq![10u8]
}

pub open spec fn entry_lines(es: Seq<(KeyView, int)>) -> Seq<u8>
    decreases es.len(),
{
    if es.len() == 0 {
        Seq::empty()
    } else {
        entry_lines(es.drop_last()) + entry_line(es.last())
    }
}

/// The text of a result table: the header line, then one line per row.
pub open spec fn result_text(g: Grouping, es: Seq<(KeyView, int)>) -> Seq<u8> {
    result_header(g) + entry_lines(es)
}

fn push_entry(out: &mut Vec<u8>, k: &GroupKey, total: i128)
    ensures
        final(out)@ == old(out)@ + entry_line((k@, total as int)),
{
    let ghost start = out@;
    match &k.account {
        Some(v) => {
            push_all(out, v.as_slice());
            out.push(44u8);
        },
        None => {},
    }
    let ghost s1 = out@;
    match &k.department {
        Some(v) => {
            push_all(out, v.as_slice());
            out.push(44u8);
        },
        None => {},
    }
    let ghost s2 = out@;
    match k.period {
        Some(p) => {
            match p {
                Some(m) => push_decimal(out, m as u128),
                None => {},
            }
            out.push(44u8);
        },
        None => {},
    }
    let ghost s3 = out@;
    push_money(out, total);
    out.push(10u8);
    proof {
        let e = (k@, total as int);
        let fa = match e.0.account {
            Some(a) => a + seq![44u8],
            None => Seq::empty(),
        };
        let fd = match e.0.department {
            Some(d) => d + seq![44u8],
            None => Seq::empty(),
        };
        let fp = match e.0.period {
            Some(p) => period_text(p) + seq![44u8],
            None => Seq::empty(),
        };
        assert(s1 =~= start + fa);
        assert(s2 =~= s1 + fd);
        assert(s3 =~= s2 + fp);
        assert(out@ =~= start + entry_line(e));
    }
}

/// Renders a result table as delimited text.
pub fn render_result(a: &AggTable) -> (r: Vec<u8>)
    requires
        a.wf(),
    ensures
        r@ == result_text(a.grouping, a.entries()),
{
    let mut out: Vec<u8> = Vec::new();
    if a.grouping.by_account() {
        push_all(&mut out, account_column_bytes().as_slice());
        out.push(44u8);
    }
    if a.grouping.by_department() {
        push_all(&mut out, department_column_bytes().as_slice());
        out.push(44u8);
    }
    if a.grouping.by_period() {
        push_all(&mut out, month_column_bytes().as_slice());
        out.push(44u8);
    }
    push_all(&mut out, total_column_bytes().as_slice());
    out.push(10u8);
    assert(out@ =~= result_header(a.grouping));
    let mut i: usize = 0;
    while i < a.keys.len()
        invariant
            a.wf(),
            i <= a.keys.len(),
            out@ == result_header(a.grouping) + entry_lines(a.entries().take(i as int)),
        decreases a.keys.len() - i,
    {
        let ghost before = out@;
        push_entry(&mut out, &a.keys[i], a.totals[i]);
        proof {
            let es = a.entries();
            assert(es.take(i + 1).drop_last() =~= es.take(i as int));
            assert(es.take(i + 1).last() == es[i as int]);
            assert(out@ =~= before + entry_line(es[i as int]));
            assert(out@ =~= result_header(a.grouping) + entry_lines(es.take(i + 1)));
        }
        i = i + 1;
    }
    assert(a.entries().take(i as int) =~= a.entries());
    out
}

/// The prefix "Month_" of a pivot's month column names.
pub open spec fn month_prefix() -> Seq<u8> {
    seq![77u8, 111u8, 110u8, 116u8, 104u8, 95u8]
}

fn month_prefix_bytes() -> (r: Vec<u8>)
    ensures
        r@ == month_prefix(),
{
    let r = vec![77u8, 111u8, 110u8, 116u8, 104u8, 95u8];
    assert(r@ =~= month_prefix());
    r
}

/// Fields joined by commas.
pub open spec fn joined(fields: Seq<Seq<u8>>) -> Seq<u8>
    decreases fields.len(),
{
    if fields.len() == 0 {
        Seq::empty()
    } else if fields.len() == 1 {
        fields[0]
    } else {
        joined(fields.drop_last()) + seq![44u8] + fields.last()
    }
}

/// Appends fields joined by commas, then a newline.
fn push_line(out: &mut Vec<u8>, fields: &Vec<Vec<u8>>)
    ensures
        final(out)@ == old(out)@ + joined(bytes_views(fields@)) + seq![10u8],
{
    let ghost start = out@;
    let ghost fs = bytes_views(fields@);
    let mut i: usize = 0;
    proof {
        assert(fs.take(0) =~= Seq::<Seq<u8>>::empty());
        assert(out@ =~= start + joined(fs.take(0)));
    }
    while i < fields.len()
        invariant
            fs == bytes_views(fields@),
            i <= fields.len(),
            out@ == start + joined(fs.take(i as int)),
        decreases fields.len() - i,
    {
        proof {
            assert(fs.take(i + 1).drop_last() =~= fs.take(i as int));
            assert(fs.take(i + 1).last() == fields[i as int]@);
            if i == 0 {
                assert(fs.take(1)[0] == fields[0]@);
            }
        }
        if i > 0 {
            out.push(44u8);
        }
        push_all(out, fields[i].as_slice());
        proof {
            assert(out@ =~= start + joined(fs.take(i + 1)));
        }
        i = i + 1;
    }
    out.push(10u8);
    proof {
        assert(fs.take(i as int) =~= fs);
    }
}

/// The column names of a pivot: the row-key columns, then `Month_<m>` for
/// each month.
pub open spec fn pivot_header(by: Grouping, months: Seq<u32>) -> Seq<Seq<u8>> {
    (if by.uses_account() { seq![account_column()] } else { Seq::empty() }) + (
    if by.uses_department() {
        seq![department_column()]
    } else {
        Seq::empty()
    }) + months.map_values(|m: u32| month_prefix() + decimal(m as nat))
}

/// The fields of one pivot row: its key's fields, then its cells.
pub open spec fn pivot_row(k: KeyView, cells: Seq<i128>) -> Seq<Seq<u8>> {
    (match k.account {
        Some(a) => seq![a],
        None => Seq::empty(),
    }) + (match k.department {
        Some(d) => seq![d],
        None => Seq::empty(),
    }) + cells.map_values(|c: i128| money_text(c as int))
}

pub open spec fn pivot_rows_text(p: PivotTable, n: int) -> Seq<u8>
    decreases n,
{
    if n <= 0 {
        Seq::empty()
    } else {
        pivot_rows_text(p, n - 1) + joined(pivot_row(p.keys[n - 1]@, p.cells[n - 1]@)) + seq![10u8]
    }
}

/// The text of a pivot: the header line, then one line per row.
pub open spec fn pivot_text(p: PivotTable) -> Seq<u8> {
    joined(pivot_header(p.by, p.months@)) + seq![10u8] + pivot_rows_text(p, p.keys.len() as int)
}

fn pivot_row_fields(k: &GroupKey, cells: &Vec<i128>) -> (r: Vec<Vec<u8>>)
    ensures
        bytes_views(r@) == pivot_row(k@, cells@),
{
    let mut r: Vec<Vec<u8>> = Vec::new();
    let ghost prefix: Seq<Seq<u8>> = match k@.account {
        Some(a) => seq![a],
        None => Seq::empty(),
    } + match k@.department {
        Some(d) => seq![d],
        None => Seq::empty(),
    };
    match &k.account {
        Some(v) => r.push(copy_bytes(v)),
        None => {},
    }
    match &k.department {
        Some(v) => r.push(copy_bytes(v)),
        None => {},
    }
    assert(bytes_views(r@) =~= prefix);
    let mut j: usize = 0;
    while j < cells.len()
        invariant
            j <= cells.len(),
            bytes_views(r@) == prefix + cells@.take(j as int).map_values(
                |c: i128| money_text(c as int),
            ),
        decreases cells.len() - j,
    {
        let mut f: Vec<u8> = Vec::new();
        push_money(&mut f, cells[j]);
        let ghost rv = r@;
        r.push(f);
        proof {
            assert(bytes_views(r@) =~= bytes_views(rv).push(f@));
            assert(cells@.take(j + 1).map_values(|c: i128| money_text(c as int)) =~= cells@.take(
                j as int,
            ).map_values(|c: i128| money_text(c as int)).push(money_text(cells[j as int] as int)));
        }
        j = j + 1;
    }
    assert(cells@.take(j as int) =~= cells@);
    r
}

fn pivot_header_fields(by: Grouping, months: &Vec<u32>) -> (r: Vec<Vec<u8>>)
    ensures
        bytes_views(r@) == pivot_header(by, months@),
{
    let mut r: Vec<Vec<u8>> = Vec::new();
    let ghost prefix: Seq<Seq<u8>> = (if by.uses_account() {
        seq![account_column()]
    } else {
        Seq::empty()
    }) + (if by.uses_department() {
        seq![department_column()]
    } else {
        Seq::empty()
    });
    if by.by_account() {
        r.push(account_column_bytes());
    }
    if by.by_department() {
        r.push(department_column_bytes());
    }
    assert(bytes_views(r@) =~= prefix);
    let mut j: usize = 0;
    while j < months.len()
        invariant
            j <= months.len(),
            bytes_views(r@) == prefix + months@.take(j as int).map_values(
                |m: u32| month_prefix() + decimal(m as nat),
            ),
        decreases months.len() - j,
    {
        let mut f = month_prefix_bytes();
        push_decimal(&mut f, months[j] as u128);
        let ghost rv = r@;
        r.push(f);
        proof {
            assert(bytes_views(r@) =~= bytes_views(rv).push(f@));
            assert(months@.take(j + 1).map_values(|m: u32| month_prefix() + decimal(m as nat))
                =~= months@.take(j as int).map_values(
                |m: u32| month_prefix() + decimal(m as nat),
            ).push(month_prefix() + decimal(months[j as int] as nat)));
        }
        j = j + 1;
    }
    assert(months@.take(j as int) =~= months@);
    r
}

/// Renders a pivot as delimited text.
pub fn render_pivot(p: &PivotTable) -> (r: Vec<u8>)
    requires
        p.cells.len() == p.keys.len(),
    ensures
        r@ == pivot_text(*p),
{
    let mut out: Vec<u8> = Vec::new();
    let header = pivot_header_fields(p.by, &p.months);
    push_line(&mut out, &header);
    let mut i: usize = 0;
    while i < p.keys.len()
        invariant
            p.cells.len() == p.keys.len(),
            i <= p.keys.len(),
            out@ == joined(pivot_header(p.by, p.months@)) + seq![10u8] + pivot_rows_text(
                *p,
                i as int,
            ),
        decreases p.keys.len() - i,
    {
        let fields = pivot_row_fields(&p.keys[i], &p.cells[i]);
        push_line(&mut out, &fields);
        proof {
            assert(out@ =~= joined(pivot_header(p.by, p.months@)) + seq![10u8] + pivot_rows_text(
                *p,
                i + 1,
            ));
        }
        i = i + 1;
    }
    out
}

} // verus!

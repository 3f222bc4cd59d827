use vstd::prelude::*;

use rand::Rng;

use crate::dates::{calendar_of, date_of_day, parse_date, parsed_date, CalendarDate};
use crate::csv::split_on;
use crate::text::{decimal, digit_char, money_text, push_all, push_money, push_padded, zero_padded};

verus! {

/// The account labels: Sales, Expenses, Assets, Liabilities.
pub open spec fn account_label(i: int) -> Seq<u8> {
    if i == 0 {
        // "Sales"
        seq![83u8, 97u8, 108u8, 101u8, 115u8]
    } else if i == 1 {
        // "Expenses"
        seq![69u8, 120u8, 112u8, 101u8, 110u8, 115u8, 101u8, 115u8]
    } else if i == 2 {
        // "Assets"
        seq![65u8, 115u8, 115u8, 101u8, 116u8, 115u8]
    } else {
        // "Liabilities"
        seq![76u8, 105u8, 97u8, 98u8, 105u8, 108u8, 105u8, 116u8, 105u8, 101u8, 115u8]
    }
}

/// The department labels: Sales, Development, HR, Finance.
pub open spec fn department_label(i: int) -> Seq<u8> {
    if i == 0 {
        // "Sales"
        seq![83u8, 97u8, 108u8, 101u8, 115u8]
    } else if i == 1 {
        // "Development"
        seq![68u8, 101u8, 118u8, 101u8, 108u8, 111u8, 112u8, 109u8, 101u8, 110u8, 116u8]
    } else if i == 2 {
        // "HR"
        seq![72u8, 82u8]
    } else {
        // "Finance"
        seq![70u8, 105u8, 110u8, 97u8, 110u8, 99u8, 101u8]
    }
}

/// The header line of a generated dataset: "Date,Amount,Account,Department".
pub open spec fn header_line() -> Seq<u8> {
    seq![68u8, 97u8, 116u8, 101u8, 44u8, 65u8, 109u8, 111u8, 117u8, 110u8, 116u8, 44u8, 65u8, 99u8, 99u8, 111u8, 117u8, 110u8, 116u8, 44u8, 68u8, 101u8, 112u8, 97u8, 114u8, 116u8, 109u8, 101u8, 110u8, 116u8]
}

fn account_bytes(i: usize) -> (r: Vec<u8>)
    requires
        i < 4,
    ensures
        r@ == account_label(i as int),
{
    if i == 0 {
        let r = vec![83u8, 97u8, 108u8, 101u8, 115u8];
        assert(r@ =~= account_label(i as int));
        r
    } else if i == 1 {
        let r = vec![69u8, 120u8, 112u8, 101u8, 110u8, 115u8, 101u8, 115u8];
        assert(r@ =~= account_label(i as int));
        r
    } else if i == 2 {
        let r = vec![65u8, 115u8, 115u8, 101u8, 116u8, 115u8];
        assert(r@ =~= account_label(i as int));
        r
    } else {
        let r = vec![76u8, 105u8, 97u8, 98u8, 105u8, 108u8, 105u8, 116u8, 105u8, 101u8, 115u8];
        assert(r@ =~= account_label(i as int));
        r
    }
}

fn department_bytes(i: usize) -> (r: Vec<u8>)
    requires
        i < 4,
    ensures
        r@ == department_label(i as int),
{
    if i == 0 {
        let r = vec![83u8, 97u8, 108u8, 101u8, 115u8];
        assert(r@ =~= department_label(i as int));
        r
    } else if i == 1 {
        let r = vec![68u8, 101u8, 118u8, 101u8, 108u8, 111u8, 112u8, 109u8, 101u8, 110u8, 116u8];
        assert(r@ =~= department_label(i as int));
        r
    } else if i == 2 {
        let r = vec![72u8, 82u8];
        assert(r@ =~= department_label(i as int));
        r
    } else {
        let r = vec![70u8, 105u8, 110u8, 97u8, 110u8, 99u8, 101u8];
        assert(r@ =~= department_label(i as int));
        r
    }
}

pub(crate) fn header_bytes() -> (r: Vec<u8>)
    ensures
        r@ == header_line(),
{
    let r = vec![68u8, 97u8, 116u8, 101u8, 44u8, 65u8, 109u8, 111u8, 117u8, 110u8, 116u8, 44u8, 65u8, 99u8, 99u8, 111u8, 117u8, 110u8, 116u8, 44u8, 68u8, 101u8, 112u8, 97u8, 114u8, 116u8, 109u8, 101u8, 110u8, 116u8];
    assert(r@ =~= header_line());
    r
}

/// Relies on `rand::thread_rng` and `Rng::gen_range` over an inclusive
/// range: the value drawn lies in the range, which must not be empty.
#[verifier::external_body]
fn random_between(lo: i64, hi: i64) -> (r: i64)
    requires
        lo <= hi,
    ensures
        lo <= r <= hi,
{
    rand::thread_rng().gen_range(lo..=hi)
}

/// One generated transaction: a day number, an amount in cents, and the
/// indices of its account and department labels.
#[derive(Clone, Copy, PartialEq, Eq, Debug, Structural)]
pub struct GeneratedRow {
    pub day_number: i32,
    pub amount_cents: i64,
    pub account: usize,
    pub department: usize,
}

/// A generated row lies in the date range, has an amount in
/// [10.00, 1000.00), and valid label indices.
pub open spec fn row_in_bounds(r: GeneratedRow, start_day: int, end_day: int) -> bool {
    &&& start_day <= r.day_number <= end_day
    &&& 1000 <= r.amount_cents < 100000
    &&& r.account < 4
    &&& r.department < 4
}

/// A calendar date as `YYYY-MM-DD`.
pub open spec fn date_text(y: int, m: int, d: int) -> Seq<u8> {
    zero_padded(decimal(y as nat), 4) + seq![45u8] + zero_padded(decimal(m as nat), 2) + seq![45u8]
        + zero_padded(decimal(d as nat), 2)
}

/// The text line of a generated row; `None` where its date has no calendar
/// form with a year in 0 to 9999.
pub open spec fn row_line(r: GeneratedRow) -> Option<Seq<u8>> {
    match calendar_of(r.day_number as int) {
        Some(c) => if 0 <= c.0 <= 9999 {
            Some(
                date_text(c.0, c.1, c.2) + seq![44u8] + money_text(r.amount_cents as int) + seq![44u8]
                    + account_label(r.account as int) + seq![44u8] + department_label(
                    r.department as int,
                ),
            )
        } else {
            None
        },
        None => None,
    }
}

/// Day `d` has a calendar form with a year in 0 to 9999.
pub open spec fn day_printable(d: int) -> bool {
    calendar_of(d) matches Some(c) && 0 <= c.0 <= 9999
}

/// `l` is the line of some row within bounds.
pub open spec fn is_row_line(l: Seq<u8>, start_day: int, end_day: int) -> bool {
    exists|g: GeneratedRow| row_in_bounds(g, start_day, end_day) && #[trigger] row_line(g) == Some(l)
}

/// Draws `rows` random rows with dates in `start_day..=end_day`.
pub fn generate_rows(rows: usize, start_day: i32, end_day: i32) -> (r: Vec<GeneratedRow>)
    requires
        start_day <= end_day,
    ensures
        r.len() == rows,
        forall|i: int| 0 <= i < rows ==> row_in_bounds(#[trigger] r[i], start_day as int, end_day as int),
{
    let range = end_day as i64 - start_day as i64;
    let mut out: Vec<GeneratedRow> = Vec::new();
    let mut i: usize = 0;
    while i < rows
        invariant
            i <= rows,
            out.len() == i,
            start_day <= end_day,
            range == end_day - start_day,
            forall|j: int| 0 <= j < i ==> row_in_bounds(#[trigger] out[j], start_day as int, end_day as int),
        decreases rows - i,
    {
        let offset = random_between(0, range);
        let amount_cents = random_between(1000, 99999);
        let account = random_between(0, 3) as usize;
        let department = random_between(0, 3) as usize;
        let day_number = (start_day as i64 + offset) as i32;
        out.push(GeneratedRow { day_number, amount_cents, account, department });
        i = i + 1;
    }
    out
}

/// Renders one generated row as a line of text.
pub fn render_row(r: &GeneratedRow) -> (o: Option<Vec<u8>>)
    requires
        r.account < 4,
        r.department < 4,
    ensures
        o is None <==> row_line(*r) is None,
        o matches Some(l) ==> row_line(*r) == Some(l@),
{
    let c = match date_of_day(r.day_number) {
        Some(c) => c,
        None => return None,
    };
    if c.year < 0 || c.year > 9999 {
        return None;
    }
    let mut out: Vec<u8> = Vec::new();
    push_padded(&mut out, c.year as u128, 4);
    out.push(45u8);
    push_padded(&mut out, c.month as u128, 2);
    out.push(45u8);
    push_padded(&mut out, c.day as u128, 2);
    out.push(44u8);
    push_money(&mut out, r.amount_cents as i128);
    out.push(44u8);
    let a = account_bytes(r.account);
    push_all(&mut out, a.as_slice());
    out.push(44u8);
    let d = department_bytes(r.department);
    push_all(&mut out, d.as_slice());
    assert(out@ =~= row_line(*r)->0);
    Some(out)
}

/// Renders a dataset: the header line, then one line per row, in order.
/// `None` where some row's date has no text form.
pub fn render_dataset(rows: &Vec<GeneratedRow>) -> (o: Option<Vec<Vec<u8>>>)
    requires
        forall|i: int| 0 <= i < rows.len() ==> rows[i].account < 4 && rows[i].department < 4,
    ensures
        o is None <==> exists|i: int| 0 <= i < rows.len() && (#[trigger] row_line(rows[i])) is None,
        o matches Some(ls) ==> ls.len() == rows.len() + 1 && ls[0]@ == header_line() && forall|i: int|
            0 <= i < rows.len() ==> row_line(rows[i]) == Some(#[trigger] ls[i + 1]@),
{
    let mut out: Vec<Vec<u8>> = Vec::new();
    out.push(header_bytes());
    let mut i: usize = 0;
    while i < rows.len()
        invariant
            i <= rows.len(),
            forall|j: int| 0 <= j < rows.len() ==> rows[j].account < 4 && rows[j].department < 4,
            out.len() == i + 1,
            out[0]@ == header_line(),
            forall|j: int| 0 <= j < i ==> row_line(rows[j]) == Some(#[trigger] out[j + 1]@),
        decreases rows.len() - i,
    {
        match render_row(&rows[i]) {
            Some(l) => out.push(l),
            None => return None,
        }
        i = i + 1;
    }
    proof {
        assert forall|j: int| 0 <= j < rows.len() implies (#[trigger] row_line(rows[j])) is Some by {
            assert(row_line(rows[j]) == Some(out[j + 1]@));
        }
    }
    Some(out)
}

/// Generates a dataset of `rows` random rows with dates in
/// `start_day..=end_day`, as lines of text: the header, then one line per row,
/// each for a row within bounds.
pub fn generate_csv(rows: usize, start_day: i32, end_day: i32) -> (o: Option<Vec<Vec<u8>>>)
    requires
        start_day <= end_day,
    ensures
        o matches Some(ls) ==> ls.len() == rows + 1 && ls[0]@ == header_line() && forall|i: int|
            0 <= i < rows ==> is_row_line(#[trigger] ls[i + 1]@, start_day as int, end_day as int),
        (forall|d: int| start_day <= d <= end_day ==> #[trigger] day_printable(d)) ==> o is Some,
{
    let generated = generate_rows(rows, start_day, end_day);
    let o = render_dataset(&generated);
    proof {
        if forall|d: int| start_day <= d <= end_day ==> #[trigger] day_printable(d) {
            assert forall|i: int| 0 <= i < generated.len() implies (#[trigger] row_line(
                generated[i],
            )) is Some by {
                assert(row_in_bounds(generated[i], start_day as int, end_day as int));
                assert(day_printable(generated[i].day_number as int));
            }
        }
        if o is Some {
            let ls = o->0;
            assert(generated.len() == rows);
            assert(ls.len() == rows + 1);
            assert forall|i: int| 0 <= i < rows implies is_row_line(
                #[trigger] ls[i + 1]@,
                start_day as int,
                end_day as int,
            ) by {
                assert(row_in_bounds(generated[i], start_day as int, end_day as int));
                assert(row_line(generated[i]) == Some(ls[i + 1]@));
            }
        }
    }
    o
}

/// Errors of the generator's configuration.
#[derive(Clone, Copy, PartialEq, Eq, Debug, Structural)]
pub enum ConfigError {
    /// The start date does not parse as `YYYY-MM-DD`.
    BadStartDate,
    /// The end date does not parse as `YYYY-MM-DD`.
    BadEndDate,
    /// The end date is not after the start date.
    EmptyRange,
}

/// Parses and checks the generator's date range: both dates must parse and
/// the end must come after the start. Returns the two dates.
pub fn parse_date_range(start: &[u8], end: &[u8]) -> (r: Result<(CalendarDate, CalendarDate), ConfigError>)
    ensures
        parsed_date(start@) is None ==> r == Err::<(CalendarDate, CalendarDate), ConfigError>(ConfigError::BadStartDate),
        parsed_date(start@) is Some && parsed_date(end@) is None ==> r == Err::<(CalendarDate, CalendarDate), ConfigError>(ConfigError::BadEndDate),
        parsed_date(start@) is Some && parsed_date(end@) is Some ==> (r is Ok <==> (parsed_date(start@)->0).3 < (parsed_date(end@)->0).3),
        r matches Ok((s, e)) ==> parsed_date(start@) == Some(s.fields()) && parsed_date(end@) == Some(e.fields()) && s.day_number < e.day_number,
        r == Err::<(CalendarDate, CalendarDate), ConfigError>(ConfigError::EmptyRange) ==> parsed_date(start@) is Some && parsed_date(end@) is Some,
{
    let s = match parse_date(start) {
        Some(s) => s,
        None => return Err(ConfigError::BadStartDate),
    };
    let e = match parse_date(end) {
        Some(e) => e,
        None => return Err(ConfigError::BadEndDate),
    };
    if e.day_number <= s.day_number {
        return Err(ConfigError::EmptyRange);
    }
    Ok((s, e))
}

/// `s` holds no comma.
pub open spec fn comma_free(s: Seq<u8>) -> bool {
    forall|i: int| 0 <= i < s.len() ==> s[i] != 44
}

proof fn lemma_split_comma_free(x: Seq<u8>)
    requires
        comma_free(x),
    ensures
        split_on(x, 44) == seq![x],
    decreases x.len(),
{
    if x.len() > 0 {
        lemma_split_comma_free(x.drop_last());
        assert(x.drop_last().push(x.last()) =~= x);
        assert(seq![x.drop_last()].update(0, x.drop_last().push(x.last())) =~= seq![x]);
    } else {
        assert(x =~= Seq::<u8>::empty());
    }
}

proof fn lemma_split_append_field(a: Seq<u8>, x: Seq<u8>)
    requires
        comma_free(x),
    ensures
        split_on(a + seq![44u8] + x, 44) == split_on(a, 44).push(x),
    decreases x.len(),
{
    let ax = a + seq![44u8] + x;
    if x.len() == 0 {
        assert(ax.drop_last() =~= a);
        assert(x =~= Seq::<u8>::empty());
    } else {
        lemma_split_append_field(a, x.drop_last());
        assert(ax.drop_last() =~= a + seq![44u8] + x.drop_last());
        let p = split_on(a, 44).push(x.drop_last());
        assert(x.drop_last().push(x.last()) =~= x);
        assert(ax.last() == x.last());
        assert(p.update(p.len() - 1, p.last().push(x.last())) =~= split_on(a, 44).push(x));
    }
}

proof fn lemma_decimal_comma_free(n: nat)
    ensures
        comma_free(decimal(n)),
        forall|i: int| 0 <= i < decimal(n).len() ==> 48 <= #[trigger] decimal(n)[i] <= 57,
    decreases n,
{
    if n >= 10 {
        lemma_decimal_comma_free(n / 10);
        assert forall|i: int| 0 <= i < decimal(n).len() implies 48 <= #[trigger] decimal(n)[i]
            <= 57 by {
            if i < decimal(n / 10).len() {
                assert(decimal(n)[i] == decimal(n / 10)[i]);
            }
        }
    }
}

proof fn lemma_padded_comma_free(n: nat, w: nat)
    ensures
        comma_free(zero_padded(decimal(n), w)),
{
    lemma_decimal_comma_free(n);
    let d = decimal(n);
    if d.len() < w {
        let z = Seq::new((w - d.len()) as nat, |i: int| 48u8);
        assert forall|i: int| 0 <= i < (z + d).len() implies (z + d)[i] != 44 by {
            if i >= z.len() {
                assert((z + d)[i] == d[i - z.len()]);
            }
        }
    }
}

proof fn lemma_concat_comma_free(a: Seq<u8>, b: Seq<u8>)
    requires
        comma_free(a),
        comma_free(b),
    ensures
        comma_free(a + b),
{
    assert forall|i: int| 0 <= i < (a + b).len() implies (a + b)[i] != 44 by {
        if i >= a.len() {
            assert((a + b)[i] == b[i - a.len()]);
        }
    }
}

proof fn lemma_labels_comma_free(i: int)
    ensures
        comma_free(account_label(i)),
        comma_free(department_label(i)),
{
}

/// The account labels.
pub open spec fn is_account_label(s: Seq<u8>) -> bool {
    exists|i: int| 0 <= i < 4 && s == #[trigger] account_label(i)
}

/// The department labels.
pub open spec fn is_department_label(s: Seq<u8>) -> bool {
    exists|i: int| 0 <= i < 4 && s == #[trigger] department_label(i)
}

/// Every line of a generated row has exactly four comma-separated fields:
/// its date, its amount, an account label and a department label.
pub proof fn lemma_generated_line_fields(l: Seq<u8>, start_day: int, end_day: int)
    requires
        is_row_line(l, start_day, end_day),
    ensures
        split_on(l, 44).len() == 4,
        is_account_label(split_on(l, 44)[2]),
        is_department_label(split_on(l, 44)[3]),
{
    let g = choose|g: GeneratedRow| row_in_bounds(g, start_day, end_day) && #[trigger] row_line(g)
        == Some(l);
    let c = calendar_of(g.day_number as int)->0;
    let dt = date_text(c.0, c.1, c.2);
    let mt = money_text(g.amount_cents as int);
    let at = account_label(g.account as int);
    let pt = department_label(g.department as int);
    lemma_padded_comma_free(c.0 as nat, 4);
    lemma_padded_comma_free(c.1 as nat, 2);
    lemma_padded_comma_free(c.2 as nat, 2);
    lemma_concat_comma_free(zero_padded(decimal(c.0 as nat), 4), seq![45u8]);
    lemma_concat_comma_free(zero_padded(decimal(c.0 as nat), 4) + seq![45u8], zero_padded(decimal(c.1 as nat), 2));
    lemma_concat_comma_free(zero_padded(decimal(c.0 as nat), 4) + seq![45u8] + zero_padded(decimal(c.1 as nat), 2), seq![45u8]);
    lemma_concat_comma_free(zero_padded(decimal(c.0 as nat), 4) + seq![45u8] + zero_padded(decimal(c.1 as nat), 2) + seq![45u8], zero_padded(decimal(c.2 as nat), 2));
    let m = if g.amount_cents < 0 { -(g.amount_cents as int) } else { g.amount_cents as int };
    lemma_decimal_comma_free((m / 100) as nat);
    let sign: Seq<u8> = if g.amount_cents < 0 { seq![45u8] } else { Seq::empty() };
    let tail = seq![46u8, digit_char((m % 100) / 10), digit_char(m % 10)];
    lemma_concat_comma_free(sign, decimal((m / 100) as nat));
    lemma_concat_comma_free(sign + decimal((m / 100) as nat), tail);
    assert(mt =~= sign + decimal((m / 100) as nat) + tail);
    lemma_labels_comma_free(g.account as int);
    lemma_labels_comma_free(g.department as int);
    lemma_split_comma_free(dt);
    lemma_split_append_field(dt, mt);
    lemma_split_append_field(dt + seq![44u8] + mt, at);
    lemma_split_append_field(dt + seq![44u8] + mt + seq![44u8] + at, pt);
    assert(l =~= dt + seq![44u8] + mt + seq![44u8] + at + seq![44u8] + pt);
    assert(split_on(l, 44) =~= seq![dt, mt, at, pt]);
    assert(split_on(l, 44)[2] == account_label(g.account as int));
    assert(split_on(l, 44)[3] == department_label(g.department as int));
}

} // verus!

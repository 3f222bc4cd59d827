use vstd::prelude::*;

use crate::data_generator::{header_bytes, header_line};
use crate::table::{bytes_eq, copy_bytes, records_view, Record, RecordView, Table};

verus! {

/// The pieces of `s` between occurrences of `sep`; an empty `s` gives one
/// empty piece.
pub open spec fn split_on(s: Seq<u8>, sep: u8) -> Seq<Seq<u8>>
    decreases s.len(),
{
    if s.len() == 0 {
        seq![Seq::empty()]
    } else {
        let p = split_on(s.drop_last(), sep);
        if s.last() == sep {
            p.push(Seq::empty())
        } else {
            p.update(p.len() - 1, p.last().push(s.last()))
        }
    }
}

pub proof fn lemma_split_nonempty(s: Seq<u8>, sep: u8)
    ensures
        split_on(s, sep).len() >= 1,
    decreases s.len(),
{
    if s.len() > 0 {
        lemma_split_nonempty(s.drop_last(), sep);
    }
}

pub open spec fn bytes_views(vs: Seq<Vec<u8>>) -> Seq<Seq<u8>> {
    vs.map_values(|v: Vec<u8>| v@)
}

/// Splits `s` at every occurrence of `sep`.
pub fn split_bytes(s: &[u8], sep: u8) -> (r: Vec<Vec<u8>>)
    ensures
        bytes_views(r@) == split_on(s@, sep),
{
    let mut parts: Vec<Vec<u8>> = Vec::new();
    let mut cur: Vec<u8> = Vec::new();
    let mut i: usize = 0;
    proof {
        assert(s@.take(0) =~= Seq::<u8>::empty());
        assert(bytes_views(parts@).push(cur@) =~= split_on(s@.take(0), sep));
    }
    while i < s.len()
        invariant
            i <= s.len(),
            bytes_views(parts@).push(cur@) == split_on(s@.take(i as int), sep),
        decreases s.len() - i,
    {
        let ghost prev = s@.take(i as int);
        let ghost next = s@.take(i + 1);
        proof {
            assert(next.drop_last() =~= prev);
            assert(next.last() == s@[i as int]);
        }
        if s[i] == sep {
            let done = cur;
            cur = Vec::new();
            let ghost pv = parts@;
            parts.push(done);
            proof {
                assert(bytes_views(parts@) =~= bytes_views(pv).push(done@));
                assert(bytes_views(parts@).push(cur@) =~= split_on(next, sep));
            }
        } else {
            let ghost cv = cur@;
            cur.push(s[i]);
            proof {
                let p = split_on(prev, sep);
                assert(p.len() - 1 == parts@.len());
                assert(p.last() == cv);
                assert(bytes_views(parts@).push(cur@) =~= split_on(next, sep));
            }
        }
        i = i + 1;
    }
    proof {
        assert(s@.take(i as int) =~= s@);
    }
    let ghost pv = parts@;
    parts.push(cur);
    proof {
        assert(bytes_views(parts@) =~= bytes_views(pv).push(cur@));
    }
    parts
}

pub open spec fn is_digit(b: u8) -> bool {
    48 <= b <= 57
}

pub open spec fn all_digits(s: Seq<u8>) -> bool {
    forall|i: int| 0 <= i < s.len() ==> is_digit(#[trigger] s[i])
}

/// The number that a string of decimal digits denotes.
pub open spec fn digits_value(s: Seq<u8>) -> int
    decreases s.len(),
{
    if s.len() == 0 {
        0
    } else {
        digits_value(s.drop_last()) * 10 + (s.last() - 48)
    }
}

pub open spec fn pow10(n: nat) -> int
    decreases n,
{
    if n == 0 {
        1
    } else {
        10 * pow10((n - 1) as nat)
    }
}

proof fn lemma_digits_bound(s: Seq<u8>)
    requires
        all_digits(s),
    ensures
        0 <= digits_value(s) < pow10(s.len()),
    decreases s.len(),
{
    if s.len() > 0 {
        assert(all_digits(s.drop_last())) by {
            assert forall|i: int| 0 <= i < s.drop_last().len() implies is_digit(
                #[trigger] s.drop_last()[i],
            ) by {
                assert(s.drop_last()[i] == s[i]);
            }
        }
        lemma_digits_bound(s.drop_last());
        assert(is_digit(s[s.len() - 1]));
    }
}

proof fn lemma_pow10_mono(a: nat, b: nat)
    requires
        a <= b,
    ensures
        1 <= pow10(a) <= pow10(b),
    decreases b,
{
    if b > 0 {
        if a < b {
            lemma_pow10_mono(a, (b - 1) as nat);
        } else {
            lemma_pow10_mono(0, (b - 1) as nat);
        }
    }
}

/// Index of the first `.` in `s`, or -1 where there is none.
pub open spec fn first_dot(s: Seq<u8>) -> int
    decreases s.len(),
{
    if s.len() == 0 {
        -1
    } else {
        let p = first_dot(s.drop_last());
        if p >= 0 {
            p
        } else if s.last() == 46 {
            s.len() - 1
        } else {
            -1
        }
    }
}

/// The cents of a fraction's digits: the first two, rounded half up by the
/// third.
pub open spec fn frac_cents(f: Seq<u8>) -> int {
    (if f.len() > 0 { (f[0] - 48) * 10 } else { 0 }) + (if f.len() > 1 { f[1] - 48 } else { 0 })
        + (if f.len() > 2 && f[2] >= 53 { 1int } else { 0 })
}

/// An unsigned amount in cents: one to fifteen integer digits, optionally
/// followed by a point and one or more fractional digits, rounded to cents.
pub open spec fn unsigned_cents(s: Seq<u8>) -> Option<int> {
    let k = first_dot(s);
    if k < 0 {
        if 1 <= s.len() <= 15 && all_digits(s) {
            Some(digits_value(s) * 100)
        } else {
            None
        }
    } else if 1 <= k <= 15 && all_digits(s.take(k)) && s.len() > k + 1 && all_digits(
        s.skip(k + 1),
    ) {
        Some(digits_value(s.take(k)) * 100 + frac_cents(s.skip(k + 1)))
    } else {
        None
    }
}

proof fn lemma_first_dot_prefix(t: Seq<u8>, m: int)
    requires
        0 <= m <= t.len(),
        first_dot(t.take(m)) >= 0,
    ensures
        first_dot(t) == first_dot(t.take(m)),
    decreases t.len(),
{
    if m < t.len() {
        assert(t.drop_last().take(m) =~= t.take(m));
        lemma_first_dot_prefix(t.drop_last(), m);
    } else {
        assert(t.take(m) =~= t);
    }
}

fn all_digits_in(s: &[u8], lo: usize, hi: usize) -> (r: bool)
    requires
        lo <= hi <= s.len(),
    ensures
        r == all_digits(s@.subrange(lo as int, hi as int)),
{
    let mut i: usize = lo;
    while i < hi
        invariant
            lo <= i <= hi <= s.len(),
            all_digits(s@.subrange(lo as int, i as int)),
        decreases hi - i,
    {
        if s[i] < 48 || s[i] > 57 {
            assert(s@.subrange(lo as int, hi as int)[i - lo] == s[i as int]);
            return false;
        }
        assert forall|j: int| 0 <= j < i + 1 - lo implies is_digit(
            #[trigger] s@.subrange(lo as int, i + 1)[j],
        ) by {
            if j < i - lo {
                assert(s@.subrange(lo as int, i + 1)[j] == s@.subrange(lo as int, i as int)[j]);
            }
        }
        i = i + 1;
    }
    true
}

/// The amount field of a row: empty for a missing amount, otherwise an
/// optional `-` and an unsigned amount. `None` where the field is malformed.
pub open spec fn amount_field(s: Seq<u8>) -> Option<Option<i64>> {
    if s.len() == 0 {
        Some(None)
    } else if s[0] == 45 {
        match unsigned_cents(s.skip(1)) {
            Some(v) => Some(Some((-v) as i64)),
            None => None,
        }
    } else {
        match unsigned_cents(s) {
            Some(v) => Some(Some(v as i64)),
            None => None,
        }
    }
}

fn parse_digits(s: &[u8], lo: usize, hi: usize) -> (r: Option<u64>)
    requires
        lo <= hi <= s.len(),
        hi - lo <= 15,
    ensures
        r is Some <==> all_digits(s@.subrange(lo as int, hi as int)),
        r matches Some(v) ==> v == digits_value(s@.subrange(lo as int, hi as int)) && v
            < 1_000_000_000_000_000,
{
    let mut v: u64 = 0;
    let mut i: usize = lo;
    proof {
        assert(s@.subrange(lo as int, lo as int) =~= Seq::<u8>::empty());
        reveal_with_fuel(pow10, 16);
        lemma_pow10_mono((hi - lo) as nat, 15);
    }
    while i < hi
        invariant
            lo <= i <= hi <= s.len(),
            hi - lo <= 15,
            pow10((hi - lo) as nat) <= 1_000_000_000_000_000,
            all_digits(s@.subrange(lo as int, i as int)),
            v == digits_value(s@.subrange(lo as int, i as int)),
        decreases hi - i,
    {
        let ghost prev = s@.subrange(lo as int, i as int);
        let ghost next = s@.subrange(lo as int, i + 1);
        proof {
            assert(next.drop_last() =~= prev);
        }
        let b = s[i];
        if b < 48 || b > 57 {
            proof {
                assert(s@.subrange(lo as int, hi as int)[i - lo] == b);
            }
            return None;
        }
        proof {
            lemma_digits_bound(prev);
            lemma_pow10_mono((i - lo) as nat, (hi - lo - 1) as nat);
            assert(pow10((hi - lo) as nat) == 10 * pow10((hi - lo - 1) as nat));
            assert(v * 10 + 9 < 10 * pow10((hi - lo - 1) as nat)) by (nonlinear_arith)
                requires
                    v < pow10((i - lo) as nat),
                    pow10((i - lo) as nat) <= pow10((hi - lo - 1) as nat),
            ;
            assert(all_digits(next)) by {
                assert forall|j: int| 0 <= j < next.len() implies is_digit(#[trigger] next[j]) by {
                    if j < prev.len() {
                        assert(next[j] == prev[j]);
                    }
                }
            }
        }
        v = v * 10 + (b - 48) as u64;
        i = i + 1;
    }
    proof {
        lemma_digits_bound(s@.subrange(lo as int, hi as int));
    }
    Some(v)
}

fn parse_unsigned(s: &[u8], lo: usize) -> (r: Option<i64>)
    requires
        lo <= s.len(),
    ensures
        r is Some <==> unsigned_cents(s@.skip(lo as int)) is Some,
        r matches Some(v) ==> v == unsigned_cents(s@.skip(lo as int))->0 && 0 <= v
            <= 100_000_000_000_000_000,
{
    let ghost t = s@.skip(lo as int);
    let n = s.len() - lo;
    proof {
        assert(t.len() == n);
        assert forall|a: int, b: int| 0 <= a <= b <= n implies #[trigger] t.subrange(a, b)
            =~= s@.subrange(lo + a, lo + b) by {}
        assert(t.take(0) =~= Seq::<u8>::empty());
    }
    let mut k: usize = 0;
    while k < n && s[lo + k] != 46
        invariant
            k <= n,
            n == s.len() - lo,
            t == s@.skip(lo as int),
            first_dot(t.take(k as int)) == -1,
        decreases n - k,
    {
        proof {
            assert(t.take(k + 1).drop_last() =~= t.take(k as int));
            assert(t.take(k + 1).last() == s@[lo + k]);
        }
        k = k + 1;
    }
    if k == n {
        proof {
            assert(t.take(n as int) =~= t);
            assert(t.subrange(0, n as int) =~= t);
        }
        if n < 1 || n > 15 {
            return None;
        }
        return match parse_digits(s, lo, s.len()) {
            Some(v) => Some((v * 100) as i64),
            None => None,
        };
    }
    proof {
        assert(t.take(k + 1).drop_last() =~= t.take(k as int));
        assert(t.take(k + 1).last() == 46);
        lemma_first_dot_prefix(t, k + 1);
        assert(t.take(k as int) =~= t.subrange(0, k as int));
        assert(t.skip(k + 1) =~= t.subrange(k + 1, n as int));
    }
    if k < 1 || k > 15 || n <= k + 1 {
        return None;
    }
    let ip = match parse_digits(s, lo, lo + k) {
        Some(v) => v,
        None => return None,
    };
    if !all_digits_in(s, lo + k + 1, s.len()) {
        return None;
    }
    let f = lo + k + 1;
    let d0 = (s[f] - 48) as u64;
    let d1: u64 = if n > k + 2 { (s[f + 1] - 48) as u64 } else { 0 };
    let up: u64 = if n > k + 3 && s[f + 2] >= 53 { 1 } else { 0 };
    proof {
        let fp = t.skip(k + 1);
        assert(fp[0] == s@[f as int]);
        assert(all_digits(fp));
        assert(is_digit(fp[0]));
        if n > k + 2 {
            assert(fp[1] == s@[f + 1]);
            assert(is_digit(fp[1]));
        }
        if n > k + 3 {
            assert(fp[2] == s@[f + 2]);
        }
        assert(d0 * 10 + d1 + up == frac_cents(fp));
    }
    Some((ip * 100 + d0 * 10 + d1 + up) as i64)
}

/// Parses an amount field.
pub fn parse_amount(s: &[u8]) -> (r: Option<Option<i64>>)
    ensures
        r == amount_field(s@),
{
    if s.len() == 0 {
        return Some(None);
    }
    if s[0] == 45 {
        match parse_unsigned(s, 1) {
            Some(v) => Some(Some(-v)),
            None => None,
        }
    } else {
        proof {
            assert(s@.skip(0) =~= s@);
        }
        match parse_unsigned(s, 0) {
            Some(v) => Some(Some(v)),
            None => None,
        }
    }
}

/// One data line: four comma-separated fields `Date,Amount,Account,Department`.
/// A malformed amount makes the line malformed in strict mode, and is a
/// missing amount in permissive mode.
pub open spec fn parse_line(l: Seq<u8>, strict: bool) -> Option<RecordView> {
    let f = split_on(l, 44);
    if f.len() != 4 {
        None
    } else {
        match amount_field(f[1]) {
            Some(a) => Some(
                RecordView { date: f[0], amount: a, account: f[2], department: f[3], period: None },
            ),
            None => if strict {
                None
            } else {
                Some(
                    RecordView {
                        date: f[0],
                        amount: None,
                        account: f[2],
                        department: f[3],
                        period: None,
                    },
                )
            },
        }
    }
}

/// The records of a sequence of data lines, skipping empty lines; the index
/// of the first malformed line where there is one.
pub open spec fn parse_lines(ls: Seq<Seq<u8>>, strict: bool) -> Result<Seq<RecordView>, int>
    decreases ls.len(),
{
    if ls.len() == 0 {
        Ok(Seq::empty())
    } else {
        match parse_lines(ls.drop_last(), strict) {
            Err(e) => Err(e),
            Ok(rs) => if ls.last().len() == 0 {
                Ok(rs)
            } else {
                match parse_line(ls.last(), strict) {
                    Some(r) => Ok(rs.push(r)),
                    None => Err(ls.len() - 1),
                }
            },
        }
    }
}

/// Errors of loading a table from text.
#[derive(Clone, Copy, PartialEq, Eq, Debug, Structural)]
pub enum LoadError {
    /// The first line is not the expected header.
    BadHeader,
    /// The line at this index (the header is line 0) is malformed.
    BadRow(usize),
}

/// The records that a text holds in strict mode.
pub open spec fn csv_rows(text: Seq<u8>) -> Result<Seq<RecordView>, LoadError> {
    csv_rows_with(text, true)
}

/// The records that a text holds: a header line, then data lines separated
/// by newlines.
pub open spec fn csv_rows_with(text: Seq<u8>, strict: bool) -> Result<Seq<RecordView>, LoadError> {
    let ls = split_on(text, 10);
    if ls[0] != header_line() {
        Err(LoadError::BadHeader)
    } else {
        match parse_lines(ls.skip(1), strict) {
            Ok(rs) => Ok(rs),
            Err(i) => Err(LoadError::BadRow((i + 1) as usize)),
        }
    }
}

proof fn lemma_parse_lines_err(ls: Seq<Seq<u8>>, k: int, strict: bool)
    requires
        0 <= k <= ls.len(),
        parse_lines(ls.take(k), strict) is Err,
    ensures
        parse_lines(ls, strict) == parse_lines(ls.take(k), strict),
    decreases ls.len(),
{
    if k < ls.len() {
        assert(ls.drop_last().take(k) =~= ls.take(k));
        lemma_parse_lines_err(ls.drop_last(), k, strict);
    } else {
        assert(ls.take(k) =~= ls);
    }
}

fn parse_record(line: &[u8], i: usize, strict: bool) -> (r: Result<Record, LoadError>)
    ensures
        parse_line(line@, strict) is Some ==> (r matches Ok(rec) && rec@ == parse_line(
            line@,
            strict,
        )->0),
        parse_line(line@, strict) is None ==> r == Err::<Record, LoadError>(LoadError::BadRow(i)),
{
    let fields = split_bytes(line, 44);
    proof {
        assert(bytes_views(fields@).len() == fields.len());
    }
    if fields.len() != 4 {
        return Err(LoadError::BadRow(i));
    }
    proof {
        assert forall|j: int| 0 <= j < 4 implies bytes_views(fields@)[j] == fields[j]@ by {}
    }
    let amount = match parse_amount(fields[1].as_slice()) {
        Some(a) => a,
        None => {
            if strict {
                return Err(LoadError::BadRow(i));
            }
            None
        },
    };
    Ok(
        Record {
            date: copy_bytes(&fields[0]),
            amount,
            account: copy_bytes(&fields[2]),
            department: copy_bytes(&fields[3]),
            period: None,
        },
    )
}

/// Loads a table from text in strict mode: a malformed amount fails the load.
pub fn load_csv(text: &[u8]) -> (r: Result<Table, LoadError>)
    ensures
        csv_rows(text@) matches Ok(rs) ==> (r matches Ok(t) && t.rows() == rs && !t.has_period),
        csv_rows(text@) matches Err(e) ==> r == Err::<Table, LoadError>(e),
{
    load_csv_with(text, true)
}

/// Loads a table from text: the header `Date,Amount,Account,Department`, then
/// one record per non-empty line. An empty amount is a missing amount; so is a
/// malformed one in permissive mode (`strict == false`), while in strict mode
/// it fails the load. The table has no period column yet.
pub fn load_csv_with(text: &[u8], strict: bool) -> (r: Result<Table, LoadError>)
    ensures
        csv_rows_with(text@, strict) matches Ok(rs) ==> (r matches Ok(t) && t.rows() == rs
            && !t.has_period),
        csv_rows_with(text@, strict) matches Err(e) ==> r == Err::<Table, LoadError>(e),
{
    let lines = split_bytes(text, 10);
    let ghost ls = bytes_views(lines@);
    proof {
        lemma_split_nonempty(text@, 10);
        assert(ls.len() == lines.len());
    }
    let header = header_bytes();
    if !bytes_eq(&lines[0], &header) {
        proof {
            assert(ls[0] == lines[0]@);
        }
        return Err(LoadError::BadHeader);
    }
    proof {
        assert(ls[0] == header_line());
    }
    let mut out: Vec<Record> = Vec::new();
    let mut i: usize = 1;
    proof {
        assert(ls.skip(1).take(0) =~= Seq::<Seq<u8>>::empty());
        assert(records_view(out@) =~= Seq::<RecordView>::empty());
    }
    while i < lines.len()
        invariant
            ls == bytes_views(lines@),
            ls == split_on(text@, 10),
            ls.len() == lines.len(),
            1 <= i <= lines.len(),
            ls[0] == header_line(),
            parse_lines(ls.skip(1).take(i - 1), strict) == Ok::<Seq<RecordView>, int>(records_view(out@)),
        decreases lines.len() - i,
    {
        let ghost prev = ls.skip(1).take(i - 1);
        let ghost next = ls.skip(1).take(i as int);
        proof {
            assert(next.drop_last() =~= prev);
            assert(next.last() == lines[i as int]@);
        }
        if lines[i].len() != 0 {
            match parse_record(lines[i].as_slice(), i, strict) {
                Ok(rec) => {
                    let ghost ov = out@;
                    out.push(rec);
                    proof {
                        assert(records_view(out@) =~= records_view(ov).push(rec@));
                    }
                },
                Err(e) => {
                    proof {
                        assert(parse_line(next.last(), strict) is None);
                        assert(next.last().len() != 0);
                        assert(parse_lines(next, strict) == Err::<Seq<RecordView>, int>(i - 1));
                        lemma_parse_lines_err(ls.skip(1), i as int, strict);
                        assert(split_on(text@, 10) == ls);
                        assert(parse_lines(ls.skip(1), strict) == Err::<Seq<RecordView>, int>(
                            i - 1,
                        ));
                        assert(e == LoadError::BadRow(i));
                        assert(csv_rows_with(text@, strict) == Err::<Seq<RecordView>, LoadError>(
                            LoadError::BadRow(i),
                        ));
                    }
                    return Err(e);
                },
            }
        }
        i = i + 1;
    }
    proof {
        assert(ls.skip(1).take(i - 1) =~= ls.skip(1));
    }
    Ok(Table { records: out, has_period: false })
}

} // verus!

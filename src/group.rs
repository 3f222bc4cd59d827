use vstd::prelude::*;

use crate::output::result_text;

use crate::table::{
    amount_sum, amount_value, distinct_keys, group_total, grouped, key_of, make_key, key_eq,
    AggTable, Grouping, KeyView, RecordView, ShapeError, Table,
};

verus! {

/// Sum of the totals of a sequence of (key, total) pairs.
pub open spec fn totals_sum(s: Seq<(KeyView, int)>) -> int
    decreases s.len(),
{
    if s.len() == 0 {
        0
    } else {
        totals_sum(s.drop_last()) + s.last().1
    }
}

/// Sum of the group totals of the keys `ks`.
pub open spec fn sum_over(ks: Seq<KeyView>, g: Grouping, rs: Seq<RecordView>) -> int
    decreases ks.len(),
{
    if ks.len() == 0 {
        0
    } else {
        sum_over(ks.drop_last(), g, rs) + group_total(g, rs, ks.last())
    }
}

/// A key that no record carries has total zero.
pub proof fn lemma_total_absent(g: Grouping, rs: Seq<RecordView>, k: KeyView)
    requires
        !distinct_keys(g, rs).contains(k),
    ensures
        group_total(g, rs, k) == 0,
    decreases rs.len(),
{
    if rs.len() > 0 {
        let d = distinct_keys(g, rs.drop_last());
        if d.contains(key_of(g, rs.last())) {
        } else {
            assert(d.push(key_of(g, rs.last())).last() == key_of(g, rs.last()));
            assert forall|x: KeyView| d.contains(x) implies d.push(key_of(g, rs.last())).contains(
                x,
            ) by {
                let i = choose|i: int| 0 <= i < d.len() && d[i] == x;
                assert(d.push(key_of(g, rs.last()))[i] == x);
            }
            assert(d.push(key_of(g, rs.last())).contains(key_of(g, rs.last())));
        }
        lemma_total_absent(g, rs.drop_last(), k);
    }
}

/// The distinct keys hold no key twice.
pub proof fn lemma_distinct_keys_unique(g: Grouping, rs: Seq<RecordView>)
    ensures
        distinct_keys(g, rs).no_duplicates(),
    decreases rs.len(),
{
    if rs.len() > 0 {
        lemma_distinct_keys_unique(g, rs.drop_last());
        let d = distinct_keys(g, rs.drop_last());
        let k = key_of(g, rs.last());
        if !d.contains(k) {
            let e = d.push(k);
            assert forall|i: int, j: int| 0 <= i < e.len() && 0 <= j < e.len() && i != j implies e[i]
                != e[j] by {
                if j == d.len() {
                    assert(e[i] == d[i]);
                } else if i == d.len() {
                    assert(e[j] == d[j]);
                }
            }
        }
    }
}

/// Every record's key stands among the distinct keys.
pub proof fn lemma_distinct_keys_complete(g: Grouping, rs: Seq<RecordView>, i: int)
    requires
        0 <= i < rs.len(),
    ensures
        distinct_keys(g, rs).contains(key_of(g, rs[i])),
    decreases rs.len(),
{
    let d = distinct_keys(g, rs.drop_last());
    let k = key_of(g, rs.last());
    if i < rs.len() - 1 {
        lemma_distinct_keys_complete(g, rs.drop_last(), i);
        assert(rs.drop_last()[i] == rs[i]);
        if !d.contains(k) {
            let j = choose|j: int| 0 <= j < d.len() && d[j] == key_of(g, rs[i]);
            assert(d.push(k)[j] == key_of(g, rs[i]));
        }
    } else {
        if !d.contains(k) {
            assert(d.push(k)[d.len() as int] == k);
        }
    }
}

/// A group total is bounded by the number of records times the largest
/// magnitude of an amount.
pub proof fn lemma_total_bound(g: Grouping, rs: Seq<RecordView>, k: KeyView)
    ensures
        -(rs.len() * 0x8000_0000_0000_0000) <= group_total(g, rs, k) <= rs.len()
            * 0x8000_0000_0000_0000,
    decreases rs.len(),
{
    if rs.len() > 0 {
        lemma_total_bound(g, rs.drop_last(), k);
        assert((rs.len() - 1) * 0x8000_0000_0000_0000 + 0x8000_0000_0000_0000 == rs.len()
            * 0x8000_0000_0000_0000) by (nonlinear_arith);
    }
}

proof fn lemma_sum_step(ks: Seq<KeyView>, g: Grouping, rs: Seq<RecordView>)
    requires
        rs.len() > 0,
        ks.no_duplicates(),
    ensures
        sum_over(ks, g, rs) == sum_over(ks, g, rs.drop_last()) + if ks.contains(
            key_of(g, rs.last()),
        ) {
            amount_value(rs.last())
        } else {
            0
        },
    decreases ks.len(),
{
    if ks.len() > 0 {
        let init = ks.drop_last();
        let k = key_of(g, rs.last());
        assert(init.no_duplicates());
        lemma_sum_step(init, g, rs);
        if ks.last() == k {
            if init.contains(k) {
                let i = choose|i: int| 0 <= i < init.len() && init[i] == k;
                assert(ks[i] == ks[ks.len() - 1]);
            }
        } else {
            if ks.contains(k) {
                let i = choose|i: int| 0 <= i < ks.len() && ks[i] == k;
                assert(init[i] == k);
            }
            if init.contains(k) {
                let i = choose|i: int| 0 <= i < init.len() && init[i] == k;
                assert(ks[i] == k);
            }
        }
    }
}

proof fn lemma_sum_map(ks: Seq<KeyView>, g: Grouping, rs: Seq<RecordView>)
    ensures
        totals_sum(ks.map_values(|k: KeyView| (k, group_total(g, rs, k)))) == sum_over(ks, g, rs),
    decreases ks.len(),
{
    if ks.len() > 0 {
        lemma_sum_map(ks.drop_last(), g, rs);
        assert(ks.drop_last().map_values(|k: KeyView| (k, group_total(g, rs, k))) =~= ks.map_values(
            |k: KeyView| (k, group_total(g, rs, k)),
        ).drop_last());
    }
}

/// Conservation of the total: the totals of a grouping add up to the sum of
/// all amounts of the input, whatever the grouping.
pub proof fn lemma_grouped_sum(g: Grouping, rs: Seq<RecordView>)
    ensures
        totals_sum(grouped(g, rs)) == amount_sum(rs),
    decreases rs.len(),
{
    lemma_sum_map(distinct_keys(g, rs), g, rs);
    lemma_distinct_sum(g, rs);
}

proof fn lemma_distinct_sum(g: Grouping, rs: Seq<RecordView>)
    ensures
        sum_over(distinct_keys(g, rs), g, rs) == amount_sum(rs),
    decreases rs.len(),
{
    if rs.len() > 0 {
        let p = rs.drop_last();
        let d = distinct_keys(g, p);
        let k = key_of(g, rs.last());
        lemma_distinct_sum(g, p);
        lemma_distinct_keys_unique(g, p);
        lemma_sum_step(d, g, rs);
        if !d.contains(k) {
            assert(d.push(k).drop_last() =~= d);
            lemma_total_absent(g, p, k);
        }
    }
}

/// Group-key uniqueness: no two rows of a grouping result share a key.
pub proof fn lemma_grouped_keys_unique(g: Grouping, rs: Seq<RecordView>)
    ensures
        forall|i: int, j: int|
            0 <= i < grouped(g, rs).len() && 0 <= j < grouped(g, rs).len() && i != j
                ==> grouped(g, rs)[i].0 != grouped(g, rs)[j].0,
{
    lemma_distinct_keys_unique(g, rs);
}

/// Every record lands in a result row: the row with its key, the only row
/// with that key, whose total is the sum over all records with that key. A
/// record with a missing period thus lands in the one row whose period is
/// missing.
pub proof fn lemma_grouped_covers_record(g: Grouping, rs: Seq<RecordView>, i: int)
    requires
        0 <= i < rs.len(),
    ensures
        exists|j: int|
            0 <= j < grouped(g, rs).len() && #[trigger] grouped(g, rs)[j] == (
                key_of(g, rs[i]),
                group_total(g, rs, key_of(g, rs[i])),
            ) && forall|l: int|
                0 <= l < grouped(g, rs).len() && l != j ==> grouped(g, rs)[l].0 != key_of(
                    g,
                    rs[i],
                ),
{
    lemma_distinct_keys_complete(g, rs, i);
    lemma_distinct_keys_unique(g, rs);
    let d = distinct_keys(g, rs);
    let j = choose|j: int| 0 <= j < d.len() && d[j] == key_of(g, rs[i]);
    assert(grouped(g, rs)[j] == (key_of(g, rs[i]), group_total(g, rs, key_of(g, rs[i]))));
}

/// Idempotence: two aggregations of the same table by the same grouping give
/// the same rows, and so the same text.
pub proof fn lemma_aggregate_idempotent(g: Grouping, t: Table, a: AggTable, b: AggTable)
    requires
        a.entries() == grouped(g, t.rows()),
        b.entries() == grouped(g, t.rows()),
    ensures
        a.entries() == b.entries(),
        result_text(g, a.entries()) == result_text(g, b.entries()),
{
}

/// Groups the records of `t` as `g` says and sums their amounts per group.
///
/// Amounts are exact integer cents and the grouping is computed here rather
/// than by a floating-point dataframe engine, so that every total is exact
/// and the whole result is fixed by this contract.
///
/// Fails exactly when `g` keys by period and the table has no period column.
/// Otherwise the result holds one row per distinct key, in order of first
/// appearance, with the sum of the amounts of the records under that key.
pub fn aggregate(g: Grouping, t: &Table) -> (r: Result<AggTable, ShapeError>)
    ensures
        g.uses_period() && !t.has_period ==> r == Err::<AggTable, ShapeError>(
            ShapeError::MissingPeriod,
        ),
        !(g.uses_period() && !t.has_period) ==> r is Ok,
        r matches Ok(a) ==> a.wf() && a.grouping == g && a.entries() == grouped(g, t.rows()),
{
    if g.by_period() && !t.has_period {
        return Err(ShapeError::MissingPeriod);
    }
    let ghost rows = t.rows();
    let mut keys: Vec<crate::table::GroupKey> = Vec::new();
    let mut totals: Vec<i128> = Vec::new();
    let n = t.records.len();
    let mut i: usize = 0;
    proof {
        assert(rows.take(0) =~= Seq::<RecordView>::empty());
        let e = AggTable { grouping: g, keys, totals };
        assert(e.entries() =~= grouped(g, rows.take(0)));
    }
    while i < n
        invariant
            n == t.records.len(),
            rows == t.rows(),
            rows.len() == n,
            i <= n,
            keys.len() == totals.len(),
            (AggTable { grouping: g, keys, totals }).entries() == grouped(g, rows.take(i as int)),
        decreases n - i,
    {
        let ghost p = rows.take(i as int);
        let ghost q = rows.take(i + 1);
        let ghost old_keys = keys@;
        let ghost old_totals = totals@;
        let ghost d = distinct_keys(g, p);
        proof {
            assert(q.drop_last() =~= p);
            assert(q.last() == t.records[i as int]@);
            lemma_distinct_keys_unique(g, p);
            assert((AggTable { grouping: g, keys, totals }).entries().len() == keys.len());
            assert(grouped(g, p).len() == d.len());
            assert(d.len() == keys.len());
            assert forall|jj: int| 0 <= jj < keys.len() implies keys[jj]@ == d[jj] && totals[jj]
                == group_total(g, p, d[jj]) by {
                assert((AggTable { grouping: g, keys, totals }).entries()[jj] == grouped(
                    g,
                    p,
                )[jj]);
            }
        }
        let k = make_key(g, &t.records[i]);
        let a: i128 = match t.records[i].amount {
            Some(v) => v as i128,
            None => 0,
        };
        proof {
            assert(a == amount_value(q.last()));
        }
        let mut j: usize = 0;
        while j < keys.len() && !key_eq(&keys[j], &k)
            invariant
                j <= keys.len(),
                forall|jj: int| 0 <= jj < j ==> keys[jj]@ != k@,
            decreases keys.len() - j,
        {
            j = j + 1;
        }
        if j < keys.len() {
            proof {
                lemma_total_bound(g, p, k@);
                assert(d[j as int] == k@);
                assert(d.contains(k@));
            }
            let cur = totals[j];
            totals.set(j, cur + a);
            proof {
                assert(distinct_keys(g, q) == d);
                assert forall|jj: int| 0 <= jj < keys.len() implies totals[jj] == group_total(
                    g,
                    q,
                    d[jj],
                ) by {
                    if jj != j {
                        assert(d[jj] != d[j as int]);
                    }
                }
                assert((AggTable { grouping: g, keys, totals }).entries() =~= grouped(g, q));
            }
        } else {
            proof {
                assert(!d.contains(k@)) by {
                    if d.contains(k@) {
                        let jj = choose|jj: int| 0 <= jj < d.len() && d[jj] == k@;
                        assert(keys[jj]@ == k@);
                    }
                }
                lemma_total_absent(g, p, k@);
            }
            keys.push(k);
            totals.push(a);
            proof {
                assert(distinct_keys(g, q) == d.push(k@));
                assert forall|jj: int| 0 <= jj < keys.len() implies keys[jj]@ == d.push(k@)[jj]
                    && totals[jj] == group_total(g, q, d.push(k@)[jj]) by {
                    if jj < d.len() {
                        assert(keys[jj]@ == old_keys[jj]@);
                        assert(d[jj] != k@);
                    }
                }
                assert((AggTable { grouping: g, keys, totals }).entries() =~= grouped(g, q));
            }
        }
        i = i + 1;
    }
    proof {
        assert(rows.take(n as int) =~= rows);
    }
    Ok(AggTable { grouping: g, keys, totals })
}

} // verus!

use vstd::prelude::*;

verus! {

/// One transaction row of a loaded table.
///
/// Amounts are held in cents. An absent amount contributes nothing to a sum.
/// `period` is the calendar month derived from `date`; it is `None` until the
/// period column has been derived, and stays `None` for a date that could not
/// be parsed in permissive mode.
pub struct Record {
    pub date: Vec<u8>,
    pub amount: Option<i64>,
    pub account: Vec<u8>,
    pub department: Vec<u8>,
    pub period: Option<u32>,
}

/// The mathematical view of a [`Record`].
pub struct RecordView {
    pub date: Seq<u8>,
    pub amount: Option<i64>,
    pub account: Seq<u8>,
    pub department: Seq<u8>,
    pub period: Option<u32>,
}

impl View for Record {
    type V = RecordView;

    open spec fn view(&self) -> RecordView {
        RecordView {
            date: self.date@,
            amount: self.amount,
            account: self.account@,
            department: self.department@,
            period: self.period,
        }
    }
}

/// A loaded table. `has_period` records whether the period column exists.
pub struct Table {
    pub records: Vec<Record>,
    pub has_period: bool,
}

pub open spec fn records_view(rs: Seq<Record>) -> Seq<RecordView> {
    rs.map_values(|r: Record| r@)
}

impl Table {
    pub open spec fn rows(&self) -> Seq<RecordView> {
        records_view(self.records@)
    }
}

/// The contribution of one record to a sum: its amount, or zero when absent.
pub open spec fn amount_value(r: RecordView) -> int {
    match r.amount {
        Some(a) => a as int,
        None => 0,
    }
}

/// Sum of all amounts of a sequence of records.
pub open spec fn amount_sum(rs: Seq<RecordView>) -> int
    decreases rs.len(),
{
    if rs.len() == 0 {
        0
    } else {
        amount_sum(rs.drop_last()) + amount_value(rs.last())
    }
}

/// The columns a grouping strategy keys its result by.
#[derive(Clone, Copy, PartialEq, Eq, Debug, Structural)]
pub enum Grouping {
    AccountMonth,
    DepartmentMonth,
    AccountDepartmentMonth,
    Month,
    Account,
    Department,
}

impl Grouping {
    pub open spec fn uses_account(self) -> bool {
        self is AccountMonth || self is AccountDepartmentMonth || self is Account
    }

    pub open spec fn uses_department(self) -> bool {
        self is DepartmentMonth || self is AccountDepartmentMonth || self is Department
    }

    pub open spec fn uses_period(self) -> bool {
        self is AccountMonth || self is DepartmentMonth || self is AccountDepartmentMonth
            || self is Month
    }

    pub fn by_account(&self) -> (r: bool)
        ensures
            r == self.uses_account(),
    {
        match self {
            Grouping::AccountMonth | Grouping::AccountDepartmentMonth | Grouping::Account => true,
            _ => false,
        }
    }

    pub fn by_department(&self) -> (r: bool)
        ensures
            r == self.uses_department(),
    {
        match self {
            Grouping::DepartmentMonth | Grouping::AccountDepartmentMonth
            | Grouping::Department => true,
            _ => false,
        }
    }

    pub fn by_period(&self) -> (r: bool)
        ensures
            r == self.uses_period(),
    {
        match self {
            Grouping::AccountMonth | Grouping::DepartmentMonth
            | Grouping::AccountDepartmentMonth | Grouping::Month => true,
            _ => false,
        }
    }
}

/// The key of one result row. A component is `None` when the grouping does
/// not use that column; the period component is `Some(None)` for the group of
/// records whose period is missing.
pub struct GroupKey {
    pub account: Option<Vec<u8>>,
    pub department: Option<Vec<u8>>,
    pub period: Option<Option<u32>>,
}

pub struct KeyView {
    pub account: Option<Seq<u8>>,
    pub department: Option<Seq<u8>>,
    pub period: Option<Option<u32>>,
}

pub open spec fn opt_bytes_view(o: Option<Vec<u8>>) -> Option<Seq<u8>> {
    match o {
        Some(v) => Some(v@),
        None => None,
    }
}

impl View for GroupKey {
    type V = KeyView;

    open spec fn view(&self) -> KeyView {
        KeyView {
            account: opt_bytes_view(self.account),
            department: opt_bytes_view(self.department),
            period: self.period,
        }
    }
}

/// The key under which a grouping places a record.
pub open spec fn key_of(g: Grouping, r: RecordView) -> KeyView {
    KeyView {
        account: if g.uses_account() { Some(r.account) } else { None },
        department: if g.uses_department() { Some(r.department) } else { None },
        period: if g.uses_period() { Some(r.period) } else { None },
    }
}

/// The distinct keys of a sequence of records, in order of first appearance.
pub open spec fn distinct_keys(g: Grouping, rs: Seq<RecordView>) -> Seq<KeyView>
    decreases rs.len(),
{
    if rs.len() == 0 {
        Seq::empty()
    } else {
        let d = distinct_keys(g, rs.drop_last());
        if d.contains(key_of(g, rs.last())) {
            d
        } else {
            d.push(key_of(g, rs.last()))
        }
    }
}

/// Sum of the amounts of the records that a grouping places under key `k`.
pub open spec fn group_total(g: Grouping, rs: Seq<RecordView>, k: KeyView) -> int
    decreases rs.len(),
{
    if rs.len() == 0 {
        0
    } else {
        group_total(g, rs.drop_last(), k) + if key_of(g, rs.last()) == k {
            amount_value(rs.last())
        } else {
            0
        }
    }
}

/// The result of grouping: one (key, total) pair per distinct key, in order of
/// first appearance.
pub open spec fn grouped(g: Grouping, rs: Seq<RecordView>) -> Seq<(KeyView, int)> {
    distinct_keys(g, rs).map_values(|k: KeyView| (k, group_total(g, rs, k)))
}

/// A grouped-and-summed result: `keys[i]` has total `totals[i]` (in cents).
pub struct AggTable {
    pub grouping: Grouping,
    pub keys: Vec<GroupKey>,
    pub totals: Vec<i128>,
}

impl AggTable {
    pub open spec fn wf(&self) -> bool {
        self.keys.len() == self.totals.len()
    }

    pub open spec fn entries(&self) -> Seq<(KeyView, int)> {
        Seq::new(self.keys.len() as nat, |i: int| (self.keys[i]@, self.totals[i] as int))
    }
}

/// Errors of the data-shape kind.
#[derive(Clone, Copy, PartialEq, Eq, Debug, Structural)]
pub enum ShapeError {
    /// The grouping needs the period column and the table has none.
    MissingPeriod,
}

pub fn copy_bytes(v: &Vec<u8>) -> (r: Vec<u8>)
    ensures
        r@ == v@,
{
    let mut r: Vec<u8> = Vec::new();
    let mut i: usize = 0;
    while i < v.len()
        invariant
            i <= v.len(),
            r@ == v@.take(i as int),
        decreases v.len() - i,
    {
        r.push(v[i]);
        i = i + 1;
        assert(r@ =~= v@.take(i as int));
    }
    assert(r@ =~= v@);
    r
}

pub fn bytes_eq(a: &Vec<u8>, b: &Vec<u8>) -> (r: bool)
    ensures
        r == (a@ == b@),
{
    if a.len() != b.len() {
        return false;
    }
    let mut i: usize = 0;
    while i < a.len()
        invariant
            i <= a.len(),
            a.len() == b.len(),
            a@.take(i as int) == b@.take(i as int),
        decreases a.len() - i,
    {
        if a[i] != b[i] {
            assert(a@[i as int] != b@[i as int]);
            return false;
        }
        assert(a@.take(i + 1) =~= a@.take(i as int).push(a@[i as int]));
        assert(b@.take(i + 1) =~= b@.take(i as int).push(b@[i as int]));
        i = i + 1;
    }
    assert(a@ =~= a@.take(a.len() as int));
    assert(b@ =~= b@.take(b.len() as int));
    true
}

fn opt_bytes_eq(a: &Option<Vec<u8>>, b: &Option<Vec<u8>>) -> (r: bool)
    ensures
        r == (opt_bytes_view(*a) == opt_bytes_view(*b)),
{
    match (a, b) {
        (Some(x), Some(y)) => bytes_eq(x, y),
        (None, None) => true,
        _ => false,
    }
}

pub fn key_eq(a: &GroupKey, b: &GroupKey) -> (r: bool)
    ensures
        r == (a@ == b@),
{
    opt_bytes_eq(&a.account, &b.account) && opt_bytes_eq(&a.department, &b.department)
        && a.period == b.period
}

/// Builds the key under which grouping `g` places record `r`.
pub fn make_key(g: Grouping, r: &Record) -> (k: GroupKey)
    ensures
        k@ == key_of(g, r@),
{
    let account = if g.by_account() { Some(copy_bytes(&r.account)) } else { None };
    let department = if g.by_department() { Some(copy_bytes(&r.department)) } else { None };
    let period = if g.by_period() { Some(r.period) } else { None };
    GroupKey { account, department, period }
}

} // verus!

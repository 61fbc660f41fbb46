//! Dashboard figures: status totals, the low-stock threshold, the request
//! status tally and the printer availability counts, for the admin view and
//! the reduced employee view.

use vstd::prelude::*;
use crate::text::{decimal, decimal_chars, parse_i64, parse_int, push_all, str_eq, trim, trimmed};

verus! {

/// A count per status name.
#[derive(Clone, Debug, PartialEq, Eq)]
pub struct StatusCount {
    pub status_name: String,
    pub count: i64,
}

/// The sum of the counts.
pub open spec fn counts_sum(v: Seq<StatusCount>) -> int
    decreases v.len(),
{
    if v.len() == 0 {
        0
    } else {
        counts_sum(v.drop_last()) + v.last().count
    }
}

/// The number of devices: the sum over the statuses.
pub fn devices_total(by_status: &Vec<StatusCount>) -> (t: i64)
    requires
        forall|k: int| 0 <= k <= by_status.len() ==> i64::MIN <= #[trigger] counts_sum(by_status@.subrange(0, k)) <= i64::MAX,
    ensures
        t == counts_sum(by_status@),
{
    let mut t: i64 = 0;
    let mut i: usize = 0;
    while i < by_status.len()
        invariant
            i <= by_status.len(),
            forall|k: int| 0 <= k <= by_status.len() ==> i64::MIN <= #[trigger] counts_sum(by_status@.subrange(0, k)) <= i64::MAX,
            t == counts_sum(by_status@.subrange(0, i as int)),
        decreases by_status.len() - i,
    {
        assert(by_status@.subrange(0, i + 1).drop_last() =~= by_status@.subrange(0, i as int));
        assert(counts_sum(by_status@.subrange(0, i + 1)) == t + by_status@[i as int].count);
        t = t + by_status[i].count;
        i = i + 1;
    }
    assert(by_status@.subrange(0, i as int) =~= by_status@);
    t
}

/// The low-stock threshold: the stored setting when it parses (after
/// trimming) as a positive integer, else 2.
pub open spec fn threshold_spec(value: Option<Seq<char>>) -> i64 {
    match value {
        Some(v) => match parse_int(trim(v), true, i64::MIN as int, i64::MAX as int) {
            Some(t) => if t > 0 { t as i64 } else { 2 },
            None => 2,
        },
        None => 2,
    }
}

/// A positive threshold stored as its decimal text is read back as that
/// number; a stored number that is zero or negative, or no setting at all,
/// gives the default 2.
pub proof fn threshold_reads_back_positive_numbers(t: i64)
    ensures
        t > 0 ==> threshold_spec(Some(decimal(t as nat))) == t,
        t <= 0 ==> threshold_spec(Some(crate::text::signed_decimal(t as int))) == 2,
        threshold_spec(None) == 2,
{
    let d = crate::text::signed_decimal(t as int);
    if t < 0 {
        let m: nat = (-(t as int)) as nat;
        crate::text::lemma_decimal_digits(m);
        assert(d[0] == '-');
        assert(d.last() == decimal(m).last());
        assert(crate::text::is_digit(decimal(m)[decimal(m).len() - 1]));
        assert(crate::text::trim_start(d) == d);
        assert(crate::text::trim_end(d) == d);
        assert(d.drop_first() =~= decimal(m));
        assert(crate::text::unsigned_part(d, true) =~= decimal(m));
    } else {
        crate::text::lemma_decimal_digits(t as nat);
        assert(crate::text::is_digit(d[0]));
        assert(crate::text::is_digit(d[d.len() - 1]));
        assert(crate::text::trim_start(d) == d);
        assert(crate::text::trim_end(d) == d);
        assert(crate::text::unsigned_part(d, true) == d);
    }
}

/// Reads the low-stock threshold setting.
pub fn low_stock_threshold(value: Option<&str>) -> (t: i64)
    ensures
        t == threshold_spec(match value { Some(v) => Some(v@), None => None }),
{
    match value {
        Some(v) => {
            let tv = trimmed(v);
            match parse_i64(tv.as_str()) {
                Some(t) => if t > 0 { t } else { 2 },
                None => 2,
            }
        },
        None => 2,
    }
}

/// The number of models in low stock and their labels, in the order read.
pub fn low_stock_summary(rows: Vec<(String, i64)>) -> (r: (i64, Vec<String>))
    requires
        rows.len() <= i64::MAX,
    ensures
        r.0 == rows.len(),
        r.1@.len() == rows@.len(),
        forall|i: int| 0 <= i < rows@.len() ==> (#[trigger] r.1@[i])@ == rows@[i].0@,
{
    let n = rows.len();
    let mut labels: Vec<String> = Vec::new();
    let mut i: usize = 0;
    while i < rows.len()
        invariant
            i <= rows.len(),
            labels@.len() == i,
            forall|k: int| 0 <= k < i ==> (#[trigger] labels@[k])@ == rows@[k].0@,
        decreases rows.len() - i,
    {
        labels.push(rows[i].0.clone());
        i = i + 1;
    }
    (n as i64, labels)
}

/// The request counts shown: open, in progress and completed (rejected and
/// cancelled requests are not shown).
pub open spec fn request_tally(rows: Seq<(Seq<char>, i64)>) -> (int, int, int)
    decreases rows.len(),
{
    if rows.len() == 0 {
        (0, 0, 0)
    } else {
        let t = request_tally(rows.drop_last());
        let r = rows.last();
        if r.0 == "open"@ {
            (t.0 + r.1, t.1, t.2)
        } else if r.0 == "in_progress"@ {
            (t.0, t.1 + r.1, t.2)
        } else if r.0 == "completed"@ {
            (t.0, t.1, t.2 + r.1)
        } else {
            t
        }
    }
}

/// The texts of `(status, count)` rows.
pub open spec fn status_rows(v: Seq<(String, i64)>) -> Seq<(Seq<char>, i64)> {
    v.map_values(|p: (String, i64)| (p.0@, p.1))
}

/// The three tallies stay within `i64` on every prefix of the rows.
pub open spec fn tally_fits(rows: Seq<(Seq<char>, i64)>) -> bool {
    forall|k: int| 0 <= k <= rows.len() ==> {
        let t = #[trigger] request_tally(rows.subrange(0, k));
        &&& i64::MIN <= t.0 <= i64::MAX
        &&& i64::MIN <= t.1 <= i64::MAX
        &&& i64::MIN <= t.2 <= i64::MAX
    }
}

/// The sum of the counts of the rows whose status is `status`.
pub open spec fn count_of_status(rows: Seq<(Seq<char>, i64)>, status: Seq<char>) -> int
    decreases rows.len(),
{
    if rows.len() == 0 {
        0
    } else {
        count_of_status(rows.drop_last(), status) + (if rows.last().0 == status { rows.last().1 as int } else { 0 })
    }
}

/// Each tally sums the counts of its own status only: open, in progress
/// and completed, in that order; rows of any other status count nowhere.
pub proof fn tallies_sum_their_own_status(rows: Seq<(Seq<char>, i64)>)
    ensures
        request_tally(rows) == (
            count_of_status(rows, "open"@),
            count_of_status(rows, "in_progress"@),
            count_of_status(rows, "completed"@),
        ),
    decreases rows.len(),
{
    reveal_strlit("open");
    reveal_strlit("in_progress");
    reveal_strlit("completed");
    assert("open"@.len() != "in_progress"@.len());
    assert("open"@.len() != "completed"@.len());
    assert("in_progress"@.len() != "completed"@.len());
    if rows.len() > 0 {
        tallies_sum_their_own_status(rows.drop_last());
    }
}

/// Tallies the `(status, count)` rows of the request query.
pub fn tally_requests(rows: &Vec<(String, i64)>) -> (r: (i64, i64, i64))
    requires
        tally_fits(status_rows(rows@)),
    ensures
        (r.0 as int, r.1 as int, r.2 as int) == request_tally(status_rows(rows@)),
        r.0 as int == count_of_status(status_rows(rows@), "open"@),
        r.1 as int == count_of_status(status_rows(rows@), "in_progress"@),
        r.2 as int == count_of_status(status_rows(rows@), "completed"@),
{
    proof {
        tallies_sum_their_own_status(status_rows(rows@));
    }
    let ghost sr = status_rows(rows@);
    let mut open: i64 = 0;
    let mut in_progress: i64 = 0;
    let mut completed: i64 = 0;
    let mut i: usize = 0;
    while i < rows.len()
        invariant
            sr == status_rows(rows@),
            tally_fits(sr),
            i <= rows.len(),
            (open as int, in_progress as int, completed as int) == request_tally(sr.subrange(0, i as int)),
        decreases rows.len() - i,
    {
        let ghost sub = sr.subrange(0, i + 1);
        assert(sub.drop_last() =~= sr.subrange(0, i as int));
        assert(sub.last() == (rows@[i as int].0@, rows@[i as int].1));
        assert(tally_fits(sr) ==> { let t = request_tally(sr.subrange(0, i + 1)); i64::MIN <= t.0 <= i64::MAX });
        let s = rows[i].0.as_str();
        let c = rows[i].1;
        if str_eq(s, "open") {
            open = open + c;
        } else if str_eq(s, "in_progress") {
            in_progress = in_progress + c;
        } else if str_eq(s, "completed") {
            completed = completed + c;
        }
        i = i + 1;
    }
    assert(sr.subrange(0, rows.len() as int) =~= sr);
    (open, in_progress, completed)
}

/// The optional value as a sequence of zero or one item.
pub open spec fn opt_seq(o: Option<i64>) -> Seq<i64> {
    match o {
        Some(v) => seq![v],
        None => Seq::empty(),
    }
}

/// The WHERE clauses of the request tally, in order.
pub open spec fn tally_clauses(owner: Option<i64>, from: Option<i64>, to: Option<i64>) -> Seq<Seq<char>> {
    let base = seq!["r.deleted_at_utc IS NULL"@];
    let own = if owner is Some {
        seq!["r.requested_by_user_id = ?1"@, "r.request_type != 'ad_register'"@]
    } else {
        Seq::empty()
    };
    let after_from = opt_seq(owner).len() + 1;
    let lower = if from is Some {
        seq!["r.created_at_utc >= ?"@ + decimal(after_from as nat)]
    } else {
        Seq::empty()
    };
    let after_to = opt_seq(owner).len() + opt_seq(from).len() + 1;
    let upper = if to is Some {
        seq!["r.created_at_utc <= ?"@ + decimal(after_to as nat)]
    } else {
        Seq::empty()
    };
    base + own + lower + upper
}

/// The WHERE clauses and parameters of the request tally: live requests,
/// the employee's own non-AD requests when `owner` is given (bound first),
/// then the period bounds, each with the next parameter number.
pub fn request_tally_where(owner: Option<i64>, from: Option<i64>, to: Option<i64>) -> (r: (Vec<String>, Vec<i64>))
    ensures
        r.1@ == opt_seq(owner) + opt_seq(from) + opt_seq(to),
        r.0@.map_values(|c: String| c@) == tally_clauses(owner, from, to),
{
    let mut clauses: Vec<String> = Vec::new();
    let mut params: Vec<i64> = Vec::new();
    clauses.push("r.deleted_at_utc IS NULL".to_owned());
    match owner {
        Some(o) => {
            clauses.push("r.requested_by_user_id = ?1".to_owned());
            clauses.push("r.request_type != 'ad_register'".to_owned());
            params.push(o);
        },
        None => {},
    }
    match from {
        Some(f) => {
            let mut c = String::new();
            c.append("r.created_at_utc >= ?");
            push_all(&mut c, &decimal_chars(params.len() as u64 + 1));
            clauses.push(c);
            params.push(f);
        },
        None => {},
    }
    match to {
        Some(t) => {
            let mut c = String::new();
            c.append("r.created_at_utc <= ?");
            push_all(&mut c, &decimal_chars(params.len() as u64 + 1));
            clauses.push(c);
            params.push(t);
        },
        None => {},
    }
    assert(params@ =~= opt_seq(owner) + opt_seq(from) + opt_seq(to));
    assert(clauses@.map_values(|c: String| c@) =~= tally_clauses(owner, from, to));

    (clauses, params)
}

/// The dashboard figures.
#[derive(Clone, Debug, PartialEq, Eq)]
pub struct DashboardWidgets {
    pub devices_total: i64,
    pub devices_by_status: Vec<StatusCount>,
    pub cartridge_by_status: Vec<StatusCount>,
    pub low_stock_count: i64,
    pub low_stock_models: Vec<String>,
    pub request_counts_open: i64,
    pub request_counts_in_progress: i64,
    pub request_counts_completed: i64,
    pub printer_online: i64,
    pub printer_offline: i64,
    pub printer_problematic: i64,
}

/// The printers that answer: all printers but those with an offline alert.
pub fn printers_online(total: i64, offline: i64) -> (n: i64)
    requires
        i64::MIN <= total - offline <= i64::MAX,
    ensures
        n == total - offline,
{
    total - offline
}

/// The employee view: only the employee's own request counts, every other
/// figure zero or empty.
pub fn employee_widgets(open: i64, in_progress: i64, completed: i64) -> (w: DashboardWidgets)
    ensures
        w.request_counts_open == open,
        w.request_counts_in_progress == in_progress,
        w.request_counts_completed == completed,
        w.devices_total == 0 && w.low_stock_count == 0 && w.printer_online == 0 && w.printer_offline == 0
            && w.printer_problematic == 0,
        w.devices_by_status@.len() == 0 && w.cartridge_by_status@.len() == 0 && w.low_stock_models@.len() == 0,
{
    DashboardWidgets {
        devices_total: 0,
        devices_by_status: Vec::new(),
        cartridge_by_status: Vec::new(),
        low_stock_count: 0,
        low_stock_models: Vec::new(),
        request_counts_open: open,
        request_counts_in_progress: in_progress,
        request_counts_completed: completed,
        printer_online: 0,
        printer_offline: 0,
        printer_problematic: 0,
    }
}

/// The start of the consumption chart: `window_months` thirty-day months
/// before now.
pub fn consumption_window_start(now: i64, window_months: u8) -> (s: i64)
    requires
        now - (window_months as int) * 30 * 86400 >= i64::MIN,
    ensures
        s == now - (window_months as int) * 30 * 86400,
{
    now - (window_months as i64) * 30 * 86400
}

} // verus!

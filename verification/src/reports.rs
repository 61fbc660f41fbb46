//! Report rules: period bounds and labels, CSV cell safety, request
//! translations, column values and SQL filter fragments.

use vstd::prelude::*;
use crate::error::AppError;
use crate::calendar::{
    lemma_next_month_start, next_month_of,
    calendar_date_exists, days_in_month, format_handover_date, local_to_unix, month_length, parts_of,
    short_date_time_text, timestamp_in_range, unix_seconds, valid_date, DateTimeParts,
};
use crate::text::{
    chars_of, decimal, padded, padded_chars, parse_int, parse_int_chars, push_all, signed_decimal,
    signed_decimal_chars, split_chars, split_on, str_eq,
};

verus! {

/// A report period as the UI sends it: `mode` is `month`, `year`, `range`
/// or anything else (a snapshot report, no period).
pub struct PeriodDto {
    pub mode: String,
    pub year: Option<i32>,
    pub month: Option<u8>,
    pub date_from: Option<String>,
    pub date_to: Option<String>,
}

/// Russian month name in the nominative case ("Сентябрь").
pub open spec fn month_nominative(m: int) -> Seq<char> {
    if m == 1 { "Январь"@ } else if m == 2 { "Февраль"@ } else if m == 3 { "Март"@ }
    else if m == 4 { "Апрель"@ } else if m == 5 { "Май"@ } else if m == 6 { "Июнь"@ }
    else if m == 7 { "Июль"@ } else if m == 8 { "Август"@ } else if m == 9 { "Сентябрь"@ }
    else if m == 10 { "Октябрь"@ } else if m == 11 { "Ноябрь"@ } else { "Декабрь"@ }
}

/// Each month's name in report headings (nominative) and in dates
/// (genitive) start with the same two letters, the heading's capitalized:
/// the two tables name the same month for every number.
pub proof fn month_names_agree(m: int)
    requires
        1 <= m <= 12,
    ensures
        month_nominative(m).len() >= 2 && crate::calendar::month_genitive(m).len() >= 2,
        crate::devices::lower_cyrillic(month_nominative(m)[0]) == crate::calendar::month_genitive(m)[0],
        month_nominative(m)[1] == crate::calendar::month_genitive(m)[1],
{
    reveal_strlit("Январь");
    reveal_strlit("Февраль");
    reveal_strlit("Март");
    reveal_strlit("Апрель");
    reveal_strlit("Май");
    reveal_strlit("Июнь");
    reveal_strlit("Июль");
    reveal_strlit("Август");
    reveal_strlit("Сентябрь");
    reveal_strlit("Октябрь");
    reveal_strlit("Ноябрь");
    reveal_strlit("Декабрь");
    reveal_strlit("января");
    reveal_strlit("февраля");
    reveal_strlit("марта");
    reveal_strlit("апреля");
    reveal_strlit("мая");
    reveal_strlit("июня");
    reveal_strlit("июля");
    reveal_strlit("августа");
    reveal_strlit("сентября");
    reveal_strlit("октября");
    reveal_strlit("ноября");
    reveal_strlit("декабря");
}

/// The nominative month name, for `1 <= m <= 12`.
pub fn month_name(m: u64) -> (s: &'static str)
    requires
        1 <= m <= 12,
    ensures
        s@ == month_nominative(m as int),
{
    match m {
        1 => "Январь",
        2 => "Февраль",
        3 => "Март",
        4 => "Апрель",
        5 => "Май",
        6 => "Июнь",
        7 => "Июль",
        8 => "Август",
        9 => "Сентябрь",
        10 => "Октябрь",
        11 => "Ноябрь",
        _ => "Декабрь",
    }
}

/// `YYYY-MM-DD` split on `-` into exactly three numbers (`i32`, `u8`,
/// `u8`, as `str::parse` reads them) that name a valid calendar date.
pub open spec fn iso_date_parts(s: Seq<char>) -> Option<(int, int, int)> {
    let parts = split_on(s, '-');
    if parts.len() != 3 {
        None
    } else {
        let y = parse_int(parts[0], true, i32::MIN as int, i32::MAX as int);
        let m = parse_int(parts[1], false, 0, 255);
        let d = parse_int(parts[2], false, 0, 255);
        if y is Some && m is Some && d is Some && valid_date(y->0, m->0, d->0) {
            Some((y->0, m->0, d->0))
        } else {
            None
        }
    }
}

proof fn lemma_digits_after_zeros(k: int, t: Seq<char>)
    ensures
        crate::text::digits_value(crate::text::zeros(k) + t) == crate::text::digits_value(t),
    decreases t.len(), (if k > 0 { k } else { 0 }),
{
    let z = crate::text::zeros(k);
    if t.len() > 0 {
        lemma_digits_after_zeros(k, t.drop_last());
        assert((z + t).drop_last() =~= z + t.drop_last());
        assert((z + t).last() == t.last());
    } else if k > 0 {
        lemma_digits_after_zeros(k - 1, t);
        assert(z + t =~= z);
        assert(z.drop_last() =~= crate::text::zeros(k - 1));
        assert(crate::text::zeros(k - 1) + t =~= crate::text::zeros(k - 1));
        assert(z.last() == '0');
    } else {
        assert(z + t =~= Seq::<char>::empty());
    }
}

/// A zero-padded natural number is all digits and spells the number.
proof fn lemma_padded_digits(n: nat, w: int)
    ensures
        crate::text::all_digits(padded(n as int, w)),
        crate::text::digits_value(padded(n as int, w)) == n,
        padded(n as int, w).len() >= 1,
{
    crate::text::lemma_decimal_digits(n);
    lemma_digits_after_zeros(w - decimal(n).len(), decimal(n));
    let z = crate::text::zeros(w - decimal(n).len());
    let p = padded(n as int, w);
    assert forall|i: int| 0 <= i < p.len() implies crate::text::is_digit(#[trigger] p[i]) by {
        if i < z.len() {
            assert(p[i] == z[i]);
        } else {
            assert(p[i] == decimal(n)[i - z.len()]);
        }
    }
}

proof fn lemma_no_dash(t: Seq<char>)
    requires
        crate::text::all_digits(t),
    ensures
        forall|i: int| 0 <= i < t.len() ==> t[i] != '-',
{
    assert forall|i: int| 0 <= i < t.len() implies t[i] != '-' by {
        assert(crate::text::is_digit(t[i]));
    }
}

/// The ISO text of a date of years 0 to 9999 (`YYYY-MM-DD`, zero padded)
/// is read back as that date, and its short Russian form is `DD.MM.YYYY`.
pub proof fn iso_date_reads_back(y: int, m: int, d: int)
    requires
        valid_date(y, m, d),
        0 <= y,
    ensures
        iso_date_parts(padded(y, 4) + "-"@ + padded(m, 2) + "-"@ + padded(d, 2)) == Some((y, m, d)),
        ru_short_date(padded(y, 4) + "-"@ + padded(m, 2) + "-"@ + padded(d, 2))
            == Some(padded(d, 2) + "."@ + padded(m, 2) + "."@ + padded(y, 4)),
{
    reveal_strlit("-");
    let a = padded(y, 4);
    let b = padded(m, 2);
    let c = padded(d, 2);
    lemma_padded_digits(y as nat, 4);
    lemma_padded_digits(m as nat, 2);
    lemma_padded_digits(d as nat, 2);
    lemma_no_dash(a);
    lemma_no_dash(b);
    lemma_no_dash(c);
    let e = Seq::<char>::empty();
    assert(split_on(e, '-') == seq![e]);
    crate::text::lemma_split_append(e, a, '-');
    assert(e + a =~= a);
    assert(split_on(a, '-') =~= seq![a]);
    crate::text::lemma_split_sep(a, '-');
    assert(a.push('-') =~= a + "-"@);
    crate::text::lemma_split_append(a + "-"@, b, '-');
    assert(split_on(a + "-"@ + b, '-') =~= seq![a, b]);
    crate::text::lemma_split_sep(a + "-"@ + b, '-');
    assert((a + "-"@ + b).push('-') =~= a + "-"@ + b + "-"@);
    crate::text::lemma_split_append(a + "-"@ + b + "-"@, c, '-');
    let full = a + "-"@ + b + "-"@ + c;
    assert(split_on(full, '-') =~= seq![a, b, c]);
    assert(crate::text::unsigned_part(a, true) == a);
    assert(crate::text::unsigned_part(b, false) == b);
    assert(crate::text::unsigned_part(c, false) == c);
}

/// Parse an ISO `YYYY-MM-DD` date into its year, month and day.
pub fn parse_iso_date(s: &str) -> (r: Option<(i32, u8, u8)>)
    ensures
        r matches Some(t) ==> iso_date_parts(s@) == Some((t.0 as int, t.1 as int, t.2 as int)),
        r is None ==> iso_date_parts(s@) is None,
{
    let cs = chars_of(s);
    let parts = split_chars(&cs, '-');
    if parts.len() != 3 {
        return None;
    }
    let y = parse_int_chars(&parts[0], true, i32::MIN as i128, i32::MAX as i128);
    let m = parse_int_chars(&parts[1], false, 0, 255);
    let d = parse_int_chars(&parts[2], false, 0, 255);
    match (y, m, d) {
        (Some(y), Some(m), Some(d)) => {
            let (y, m, d) = (y as i32, m as u8, d as u8);
            if calendar_date_exists(y, m, d) {
                Some((y, m, d))
            } else {
                None
            }
        },
        _ => None,
    }
}

/// Unix time of the start (00:00:00) or end (23:59:59) of an ISO date at
/// offset `off`.
pub open spec fn iso_date_unix(s: Seq<char>, off: int, end_of_day: bool) -> Option<int> {
    match iso_date_parts(s) {
        Some((y, m, d)) => Some(
            if end_of_day { unix_seconds(y, m, d, 23, 59, 59, off) } else { unix_seconds(y, m, d, 0, 0, 0, off) },
        ),
        None => None,
    }
}

/// Parse "YYYY-MM-DD" into a Unix timestamp at the given offset: the
/// start of that day, or its last second when `end_of_day`.
pub fn parse_iso_date_to_utc(s: &str, offset_seconds: i32, end_of_day: bool) -> (r: Option<i64>)
    requires
        -93600 < offset_seconds < 93600,
    ensures
        r matches Some(t) ==> iso_date_unix(s@, offset_seconds as int, end_of_day) == Some(t as int),
        r is None ==> iso_date_unix(s@, offset_seconds as int, end_of_day) is None,
{
    match parse_iso_date(s) {
        Some((y, m, d)) => {
            if end_of_day {
                Some(local_to_unix(y, m, d, 23, 59, 59, offset_seconds))
            } else {
                Some(local_to_unix(y, m, d, 0, 0, 0, offset_seconds))
            }
        },
        None => None,
    }
}

/// Bounds of calendar month `m` of year `y`: its first second and its last
/// second; `None` when the month (or the month after it) is not
/// representable.
pub open spec fn month_bounds(y: int, m: int, off: int) -> Option<(int, int)> {
    let (ny, nm) = next_month_of(y, m);
    if 1 <= m && m <= 12 && valid_date(y, m, 1) && valid_date(ny, nm, 1) {
        Some((unix_seconds(y, m, 1, 0, 0, 0, off), unix_seconds(y, m, days_in_month(y, m), 23, 59, 59, off)))
    } else {
        None
    }
}

/// Bounds of calendar year `y`.
pub open spec fn year_bounds(y: int, off: int) -> Option<(int, int)> {
    if -9999 <= y && y <= 9999 {
        Some((unix_seconds(y, 1, 1, 0, 0, 0, off), unix_seconds(y, 12, 31, 23, 59, 59, off)))
    } else {
        None
    }
}

/// Bounds of an ISO date range, both ends inclusive.
pub open spec fn range_bounds(from: Seq<char>, to: Seq<char>, off: int) -> Option<(int, int)> {
    match (iso_date_unix(from, off, false), iso_date_unix(to, off, true)) {
        (Some(s), Some(e)) => Some((s, e)),
        _ => None,
    }
}

/// The inclusive Unix-second bounds a period stands for at offset `off`.
pub open spec fn period_bounds(p: PeriodDto, off: int) -> Option<(int, int)> {
    if p.mode@ == "month"@ {
        if p.year is Some && p.month is Some {
            month_bounds(p.year->0 as int, p.month->0 as int, off)
        } else {
            None
        }
    } else if p.mode@ == "year"@ {
        if p.year is Some { year_bounds(p.year->0 as int, off) } else { None }
    } else if p.mode@ == "range"@ {
        if p.date_from is Some && p.date_to is Some {
            range_bounds(p.date_from->0@, p.date_to->0@, off)
        } else {
            None
        }
    } else {
        None
    }
}

/// A month period ends one second before the next month starts.
pub proof fn month_ends_before_next_month(y: int, m: int, off: int)
    requires
        month_bounds(y, m, off) is Some,
    ensures
        (month_bounds(y, m, off)->0).1 == unix_seconds(next_month_of(y, m).0, next_month_of(y, m).1, 1, 0, 0, 0, off) - 1,
{
    lemma_next_month_start(y, m);
}

/// A month period covers the whole month and nothing else: it starts at
/// local midnight of the 1st and lasts as many days as the month has
/// (29 for February of a leap year).
pub proof fn month_period_spans_the_month(y: int, m: int, off: int)
    requires
        month_bounds(y, m, off) is Some,
    ensures
        (month_bounds(y, m, off)->0).0 == unix_seconds(y, m, 1, 0, 0, 0, off),
        (month_bounds(y, m, off)->0).1 - (month_bounds(y, m, off)->0).0 + 1 == days_in_month(y, m) * 86400,
{
    assert(crate::calendar::days_from_civil(y, m, days_in_month(y, m))
        == crate::calendar::days_from_civil(y, m, 1) + days_in_month(y, m) - 1);
}

/// A year period starts at local midnight of 1 January and lasts 366 days
/// in a leap year, 365 in any other.
pub proof fn year_period_spans_the_year(y: int, off: int)
    requires
        year_bounds(y, off) is Some,
    ensures
        (year_bounds(y, off)->0).0 == unix_seconds(y, 1, 1, 0, 0, 0, off),
        (year_bounds(y, off)->0).1 - (year_bounds(y, off)->0).0 + 1
            == (if crate::calendar::is_leap(y) { 366int } else { 365int }) * 86400,
{
    lemma_next_month_start(y, 1);
    lemma_next_month_start(y, 2);
    lemma_next_month_start(y, 3);
    lemma_next_month_start(y, 4);
    lemma_next_month_start(y, 5);
    lemma_next_month_start(y, 6);
    lemma_next_month_start(y, 7);
    lemma_next_month_start(y, 8);
    lemma_next_month_start(y, 9);
    lemma_next_month_start(y, 10);
    lemma_next_month_start(y, 11);
    lemma_next_month_start(y, 12);
    assert forall|k: int| 1 <= k <= 12 implies #[trigger] crate::calendar::days_from_civil(y, k, days_in_month(y, k))
        == crate::calendar::days_from_civil(y, k, 1) + days_in_month(y, k) - 1 by {}
}

/// A year period ends one second before the next year starts.
pub proof fn year_ends_before_next_year(y: int, off: int)
    requires
        year_bounds(y, off) is Some,
    ensures
        (year_bounds(y, off)->0).1 == unix_seconds(y + 1, 1, 1, 0, 0, 0, off) - 1,
{
    lemma_next_month_start(y, 12);
}

/// A date range ends on the last second of its last day: 86399 seconds
/// after that day starts.
pub proof fn range_ends_on_last_second(from: Seq<char>, to: Seq<char>, off: int)
    requires
        range_bounds(from, to, off) is Some,
    ensures
        (range_bounds(from, to, off)->0).1 == iso_date_unix(to, off, false)->0 + 86399,
{
}

/// Compute `(start_utc, end_utc)` inclusive Unix-second bounds of a period
/// at the organization's UTC offset. Both are `None` for snapshot reports
/// (unknown mode) and for incomplete or invalid periods.
pub fn compute_period_utc(dto: &PeriodDto, offset_seconds: i32) -> (r: (Option<i64>, Option<i64>))
    requires
        -93600 < offset_seconds < 93600,
    ensures
        period_bounds(*dto, offset_seconds as int) matches Some((s, e)) ==> r.0 == Some(s as i64) && r.1 == Some(e as i64),
        period_bounds(*dto, offset_seconds as int) is None ==> r.0 is None && r.1 is None,
{
    if crate::text::str_eq(dto.mode.as_str(), "month") {
        let year = match dto.year {
            Some(y) => y,
            None => return (None, None),
        };
        let month = match dto.month {
            Some(m) => m,
            None => return (None, None),
        };
        if month < 1 || month > 12 || !calendar_date_exists(year, month, 1) {
            return (None, None);
        }
        let (ny, nm): (i32, u8) = if month == 12 { (year + 1, 1) } else { (year, month + 1) };
        if !calendar_date_exists(ny, nm, 1) {
            return (None, None);
        }
        let last = month_length(year, month);
        let start = local_to_unix(year, month, 1, 0, 0, 0, offset_seconds);
        let end = local_to_unix(year, month, last, 23, 59, 59, offset_seconds);
        (Some(start), Some(end))
    } else if crate::text::str_eq(dto.mode.as_str(), "year") {
        let year = match dto.year {
            Some(y) => y,
            None => return (None, None),
        };
        if !calendar_date_exists(year, 1, 1) {
            return (None, None);
        }
        let start = local_to_unix(year, 1, 1, 0, 0, 0, offset_seconds);
        let end = local_to_unix(year, 12, 31, 23, 59, 59, offset_seconds);
        (Some(start), Some(end))
    } else if crate::text::str_eq(dto.mode.as_str(), "range") {
        let from = match &dto.date_from {
            Some(s) => s,
            None => return (None, None),
        };
        let to = match &dto.date_to {
            Some(s) => s,
            None => return (None, None),
        };
        let start = match parse_iso_date_to_utc(from.as_str(), offset_seconds, false) {
            Some(t) => t,
            None => return (None, None),
        };
        let end = match parse_iso_date_to_utc(to.as_str(), offset_seconds, true) {
            Some(t) => t,
            None => return (None, None),
        };
        (Some(start), Some(end))
    } else {
        (None, None)
    }
}

/// "DD.MM.YYYY" for a valid ISO date, `None` otherwise.
pub open spec fn ru_short_date(s: Seq<char>) -> Option<Seq<char>> {
    match iso_date_parts(s) {
        Some((y, m, d)) => Some(padded(d, 2) + "."@ + padded(m, 2) + "."@ + padded(y, 4)),
        None => None,
    }
}

/// Parse "YYYY-MM-DD" and render it as "DD.MM.YYYY"; `None` on malformed
/// or out-of-range input.
pub fn format_ru_short_date(s: &str) -> (r: Option<String>)
    ensures
        r matches Some(t) ==> ru_short_date(s@) == Some(t@),
        r is None ==> ru_short_date(s@) is None,
{
    match parse_iso_date(s) {
        Some((y, m, d)) => {
            let mut out = String::new();
            push_all(&mut out, &padded_chars(d as i64, 2));
            out.append(".");
            push_all(&mut out, &padded_chars(m as i64, 2));
            out.append(".");
            push_all(&mut out, &padded_chars(y as i64, 4));
            Some(out)
        },
        None => None,
    }
}

/// "2026 год"
pub open spec fn year_label(y: int) -> Seq<char> {
    signed_decimal(y) + " год"@
}

/// The Russian period label of a report subtitle.
pub open spec fn period_label(p: PeriodDto) -> Seq<char> {
    if p.mode@ == "month"@ {
        match p.year {
            None => Seq::empty(),
            Some(y) => match p.month {
                Some(m) => if 1 <= m && m <= 12 {
                    month_nominative(m as int) + " "@ + signed_decimal(y as int)
                } else {
                    year_label(y as int)
                },
                None => year_label(y as int),
            },
        }
    } else if p.mode@ == "year"@ {
        match p.year {
            Some(y) => year_label(y as int),
            None => Seq::empty(),
        }
    } else if p.mode@ == "range"@ {
        let from = match p.date_from { Some(f) => ru_short_date(f@), None => None };
        let to = match p.date_to { Some(t) => ru_short_date(t@), None => None };
        match (from, to) {
            (Some(f), Some(t)) => f + " — "@ + t,
            (Some(f), None) => f,
            (None, Some(t)) => t,
            (None, None) => Seq::empty(),
        }
    } else {
        Seq::empty()
    }
}

fn year_label_string(y: i32) -> (s: String)
    ensures
        s@ == year_label(y as int),
{
    let mut out = String::new();
    push_all(&mut out, &signed_decimal_chars(y as i64));
    out.append(" год");
    out
}

fn short_date_opt(s: &Option<String>) -> (r: Option<String>)
    ensures
        r matches Some(t) ==> (s matches Some(x) && ru_short_date(x@) == Some(t@)),
        r is None ==> (s is None || (s matches Some(x) && ru_short_date(x@) is None)),
{
    match s {
        Some(x) => format_ru_short_date(x.as_str()),
        None => None,
    }
}

/// Build a human-readable Russian period label for report headers: never
/// the raw `mode` word; missing or malformed fields degrade to a partial
/// or empty label. A month period without a usable month reads exactly
/// like the year period of that year.
pub fn format_period_label(dto: &PeriodDto) -> (s: String)
    ensures
        s@ == period_label(*dto),
{
    if crate::text::str_eq(dto.mode.as_str(), "month") {
        let year = match dto.year {
            Some(y) => y,
            None => return String::new(),
        };
        match dto.month {
            Some(m) => {
                if 1 <= m && m <= 12 {
                    let mut out = String::new();
                    out.append(month_name(m as u64));
                    out.append(" ");
                    push_all(&mut out, &signed_decimal_chars(year as i64));
                    out
                } else {
                    year_label_string(year)
                }
            },
            None => year_label_string(year),
        }
    } else if crate::text::str_eq(dto.mode.as_str(), "year") {
        match dto.year {
            Some(y) => year_label_string(y),
            None => String::new(),
        }
    } else if crate::text::str_eq(dto.mode.as_str(), "range") {
        let from = short_date_opt(&dto.date_from);
        let to = short_date_opt(&dto.date_to);
        match (from, to) {
            (Some(f), Some(t)) => {
                let mut out = f;
                out.append(" — ");
                out.append(t.as_str());
                out
            },
            (Some(f), None) => f,
            (None, Some(t)) => t,
            (None, None) => String::new(),
        }
    } else {
        String::new()
    }
}

/// A month period whose month is missing or out of range is labelled
/// exactly like the year period of the same year.
pub proof fn month_label_degrades_to_year_label(y: i32, m: Option<u8>, a: PeriodDto, b: PeriodDto)
    requires
        a.mode@ == "month"@,
        b.mode@ == "year"@,
        a.year == Some(y),
        b.year == Some(y),
        a.month == m,
        m matches Some(k) ==> (k < 1 || k > 12),
    ensures
        period_label(a) == period_label(b),
{
    reveal_strlit("month");
    reveal_strlit("year");
    assert("month"@.len() != "year"@.len());
}

/// The label of a period whose mode is none of `month`, `year`, `range`
/// is empty: the mode word never shows.
pub proof fn unknown_mode_label_is_empty(p: PeriodDto)
    requires
        p.mode@ != "month"@,
        p.mode@ != "year"@,
        p.mode@ != "range"@,
    ensures
        period_label(p).len() == 0,
{
}

/// A cell that a spreadsheet would read as a formula.
pub open spec fn starts_formula(s: Seq<char>) -> bool {
    s.len() > 0 && (s[0] == '=' || s[0] == '+' || s[0] == '-' || s[0] == '@')
}

/// The CSV cell text for `value`: a formula-like value gets a leading `'`.
pub open spec fn csv_safe_spec(s: Seq<char>) -> Seq<char> {
    if starts_formula(s) { seq!['\''] + s } else { s }
}

/// Excel formula injection guard: prefix values starting with `=`, `+`,
/// `-` or `@` with `'`.
pub fn csv_safe(value: &str) -> (r: String)
    ensures
        r@ == csv_safe_spec(value@),
{
    let cs = chars_of(value);
    if cs.len() > 0 && (cs[0] == '=' || cs[0] == '+' || cs[0] == '-' || cs[0] == '@') {
        let mut out = String::new();
        crate::text::push_char(&mut out, '\'');
        push_all(&mut out, &cs);
        assert(out@ =~= seq!['\''] + value@);
        out
    } else {
        value.to_owned()
    }
}

/// A guarded cell never starts a formula, and dropping its guard gives
/// back the value.
pub proof fn csv_safe_neutralizes(s: Seq<char>)
    ensures
        !starts_formula(csv_safe_spec(s)),
        starts_formula(s) ==> csv_safe_spec(s).drop_first() == s,
        !starts_formula(s) ==> csv_safe_spec(s) == s,
        s.len() > 0 && (s[0] == '=' || s[0] == '+' || s[0] == '-' || s[0] == '@') ==> csv_safe_spec(s) == seq!['\''] + s,
        s.len() == 0 || !(s[0] == '=' || s[0] == '+' || s[0] == '-' || s[0] == '@') ==> csv_safe_spec(s) == s,
{
    if starts_formula(s) {
        assert((seq!['\''] + s)[0] == '\'');
        assert((seq!['\''] + s).drop_first() =~= s);
    }
}

/// Russian label of a request type; unknown types keep their raw key.
pub open spec fn request_type_label(raw: Seq<char>) -> Seq<char> {
    if raw == "cartridge_replace"@ { "Замена картриджа"@ }
    else if raw == "free_form"@ { "Произвольная"@ }
    else if raw == "ad_register"@ { "Учётная запись AD"@ }
    else { raw }
}

/// The request types the application knows.
pub open spec fn known_request_type(raw: Seq<char>) -> bool {
    raw == "cartridge_replace"@ || raw == "free_form"@ || raw == "ad_register"@
}

/// Every known request type is shown by a label of its own, never a raw
/// type; any other value is shown as it is.
pub proof fn request_type_labels_are_distinct(a: Seq<char>, b: Seq<char>)
    ensures
        known_request_type(a) && known_request_type(b) && a != b ==> request_type_label(a) != request_type_label(b),
        known_request_type(a) ==> request_type_label(a) != a && !known_request_type(request_type_label(a)),
        !known_request_type(a) ==> request_type_label(a) == a,
{
    reveal_strlit("cartridge_replace");
    reveal_strlit("free_form");
    reveal_strlit("ad_register");
    reveal_strlit("Замена картриджа");
    reveal_strlit("Произвольная");
    reveal_strlit("Учётная запись AD");
    assert("cartridge_replace"@[0] != "free_form"@[0] && "cartridge_replace"@[0] != "ad_register"@[0]);
    assert("free_form"@[0] != "ad_register"@[0]);
    assert("Замена картриджа"@[0] != "Произвольная"@[0] && "Замена картриджа"@[0] != "Учётная запись AD"@[0]);
    assert("Произвольная"@[0] != "Учётная запись AD"@[0]);
    let raws = seq!["cartridge_replace"@, "free_form"@, "ad_register"@];
    let labels = seq!["Замена картриджа"@, "Произвольная"@, "Учётная запись AD"@];
    assert forall|i: int, j: int| 0 <= i < 3 && 0 <= j < 3 implies #[trigger] labels[i][0] != #[trigger] raws[j][0] by {
    }
}

/// Translate `requests.request_type` into Russian.
pub fn translate_request_type(raw: &str) -> (s: String)
    ensures
        s@ == request_type_label(raw@),
{
    if crate::text::str_eq(raw, "cartridge_replace") {
        "Замена картриджа".to_owned()
    } else if crate::text::str_eq(raw, "free_form") {
        "Произвольная".to_owned()
    } else if crate::text::str_eq(raw, "ad_register") {
        "Учётная запись AD".to_owned()
    } else {
        raw.to_owned()
    }
}

/// Russian label of a request status; unknown statuses keep their raw key.
pub open spec fn request_status_label(raw: Seq<char>) -> Seq<char> {
    if raw == "open"@ { "Открыта"@ }
    else if raw == "in_progress"@ { "В работе"@ }
    else if raw == "completed"@ { "Выполнена"@ }
    else if raw == "rejected"@ { "Отклонена"@ }
    else if raw == "cancelled"@ { "Отменена"@ }
    else { raw }
}

/// The request statuses the application knows.
pub open spec fn known_request_status(raw: Seq<char>) -> bool {
    raw == "open"@ || raw == "in_progress"@ || raw == "completed"@ || raw == "rejected"@ || raw == "cancelled"@
}

/// Every known request status is shown by a label of its own (two statuses
/// never share a label, and no label is a raw status); any other value is
/// shown as it is.
pub proof fn request_status_labels_are_distinct(a: Seq<char>, b: Seq<char>)
    ensures
        known_request_status(a) && known_request_status(b) && a != b ==> request_status_label(a) != request_status_label(b),
        known_request_status(a) ==> request_status_label(a) != a && !known_request_status(request_status_label(a)),
        !known_request_status(a) ==> request_status_label(a) == a,
{
    reveal_strlit("open");
    reveal_strlit("in_progress");
    reveal_strlit("completed");
    reveal_strlit("rejected");
    reveal_strlit("cancelled");
    reveal_strlit("Открыта");
    reveal_strlit("В работе");
    reveal_strlit("Выполнена");
    reveal_strlit("Отклонена");
    reveal_strlit("Отменена");
    let raws = seq!["open"@, "in_progress"@, "completed"@, "rejected"@, "cancelled"@];
    let labels = seq!["Открыта"@, "В работе"@, "Выполнена"@, "Отклонена"@, "Отменена"@];
    assert("open"@[0] != "in_progress"@[0] && "open"@[0] != "completed"@[0] && "open"@[0] != "rejected"@[0]);
    assert("open"@[0] != "cancelled"@[0] && "in_progress"@[0] != "completed"@[0] && "in_progress"@[0] != "rejected"@[0]);
    assert("in_progress"@[0] != "cancelled"@[0] && "completed"@[0] != "rejected"@[0] && "rejected"@[0] != "cancelled"@[0]);
    assert("completed"@[2] != "cancelled"@[2]);
    assert("Открыта"@[0] != "В работе"@[0] && "Открыта"@[0] != "Выполнена"@[0]);
    assert("Открыта"@[3] != "Отклонена"@[3] && "Открыта"@[2] != "Отменена"@[2]);
    assert("В работе"@[1] != "Выполнена"@[1] && "В работе"@[0] != "Отклонена"@[0] && "В работе"@[0] != "Отменена"@[0]);
    assert("Выполнена"@[0] != "Отклонена"@[0] && "Выполнена"@[0] != "Отменена"@[0]);
    assert("Отклонена"@[2] != "Отменена"@[2]);
    assert forall|i: int, j: int| 0 <= i < 5 && 0 <= j < 5 implies #[trigger] labels[i][0] != #[trigger] raws[j][0] by {
    }
}

/// Translate `requests.status` into Russian.
pub fn translate_request_status(raw: &str) -> (s: String)
    ensures
        s@ == request_status_label(raw@),
{
    if crate::text::str_eq(raw, "open") {
        "Открыта".to_owned()
    } else if crate::text::str_eq(raw, "in_progress") {
        "В работе".to_owned()
    } else if crate::text::str_eq(raw, "completed") {
        "Выполнена".to_owned()
    } else if crate::text::str_eq(raw, "rejected") {
        "Отклонена".to_owned()
    } else if crate::text::str_eq(raw, "cancelled") {
        "Отменена".to_owned()
    } else {
        raw.to_owned()
    }
}

/// The «Принтер / Место» cell: nothing without a printer; the printer name,
/// followed by `, ` and the place when there is a non-empty place.
pub open spec fn printer_place_cell(name: Option<Seq<char>>, place: Option<Seq<char>>) -> Option<Seq<char>> {
    match name {
        None => None,
        Some(n) => match place {
            Some(l) => if l.len() > 0 { Some(n + ", "@ + l) } else { Some(n) },
            None => Some(n),
        },
    }
}

/// Combine printer name and place path into one column value.
pub fn combine_printer_and_place(printer_name: Option<String>, printer_place: Option<String>) -> (r: Option<String>)
    ensures
        r matches Some(s) ==> printer_place_cell(
            match printer_name { Some(n) => Some(n@), None => None },
            match printer_place { Some(p) => Some(p@), None => None },
        ) == Some(s@),
        r is None ==> printer_name is None,
{
    let name = match printer_name {
        Some(n) => n,
        None => return None,
    };
    match printer_place {
        Some(loc) => {
            if loc.as_str().unicode_len() > 0 {
                let mut out = name;
                out.append(", ");
                out.append(loc.as_str());
                Some(out)
            } else {
                Some(name)
            }
        },
        None => Some(name),
    }
}

/// "2026-09" → "Сентябрь 2026"; anything else is returned unchanged.
pub open spec fn month_key_label(key: Seq<char>) -> Seq<char> {
    let parts = split_on(key, '-');
    if parts.len() != 2 {
        key
    } else {
        let y = parse_int(parts[0], true, i32::MIN as int, i32::MAX as int);
        let m = parse_int(parts[1], false, 0, usize::MAX as int);
        if y is Some && m is Some && 1 <= m->0 && m->0 <= 12 {
            month_nominative(m->0) + " "@ + signed_decimal(y->0)
        } else {
            key
        }
    }
}

/// A month key as the report queries write it (`YYYY-MM`, zero padded) is
/// headed by the month's name and the year.
pub proof fn month_key_reads_back(y: int, m: int)
    requires
        0 <= y <= 9999,
        1 <= m <= 12,
    ensures
        month_key_label(padded(y, 4) + "-"@ + padded(m, 2)) == month_nominative(m) + " "@ + signed_decimal(y),
{
    reveal_strlit("-");
    let a = padded(y, 4);
    let b = padded(m, 2);
    lemma_padded_digits(y as nat, 4);
    lemma_padded_digits(m as nat, 2);
    lemma_no_dash(a);
    lemma_no_dash(b);
    let e = Seq::<char>::empty();
    assert(split_on(e, '-') == seq![e]);
    crate::text::lemma_split_append(e, a, '-');
    assert(e + a =~= a);
    assert(split_on(a, '-') =~= seq![a]);
    crate::text::lemma_split_sep(a, '-');
    assert(a.push('-') =~= a + "-"@);
    crate::text::lemma_split_append(a + "-"@, b, '-');
    assert(split_on(a + "-"@ + b, '-') =~= seq![a, b]);
    assert(crate::text::unsigned_part(a, true) == a);
    assert(crate::text::unsigned_part(b, false) == b);
}

/// Month key → Russian heading.
pub fn month_key_to_russian(month_key: &str) -> (s: String)
    ensures
        s@ == month_key_label(month_key@),
{
    let cs = chars_of(month_key);
    let parts = split_chars(&cs, '-');
    if parts.len() != 2 {
        return month_key.to_owned();
    }
    let y = parse_int_chars(&parts[0], true, i32::MIN as i128, i32::MAX as i128);
    let m = parse_int_chars(&parts[1], false, 0, usize::MAX as i128);
    match (y, m) {
        (Some(y), Some(m)) => {
            if 1 <= m && m <= 12 {
                let mut out = String::new();
                out.append(month_name(m as u64));
                out.append(" ");
                push_all(&mut out, &signed_decimal_chars(y as i64));
                out
            } else {
                month_key.to_owned()
            }
        },
        _ => month_key.to_owned(),
    }
}

// ---------------------------------------------------------------------------
// Report rows and their cells
// ---------------------------------------------------------------------------

/// One row of a tabular report (every column optional).
#[derive(Clone, Debug, PartialEq, Eq)]
pub struct ReportRow {
    pub id: i64,
    pub month_key: Option<String>,
    pub number: Option<String>,
    pub sub_number: Option<String>,
    pub giver_name: Option<String>,
    pub receiver_name: Option<String>,
    pub handover_date_utc: Option<i64>,
    pub place_path: Option<String>,
    pub act_type: Option<String>,
    pub device_name: Option<String>,
    pub quantity: Option<i64>,
    pub code: Option<String>,
    pub model_label: Option<String>,
    pub status_name: Option<String>,
    pub request_type_label: Option<String>,
}

/// The text of an optional column; empty when absent.
pub open spec fn opt_text(o: Option<String>) -> Seq<char> {
    match o {
        Some(s) => s@,
        None => Seq::empty(),
    }
}

/// The view of an optional string.
pub open spec fn opt_view(o: Option<String>) -> Option<Seq<char>> {
    match o {
        Some(s) => Some(s@),
        None => None,
    }
}

/// The cell of column `col` for every column but the handover date; an
/// unknown column gives an empty cell.
pub open spec fn plain_cell(row: ReportRow, col: Seq<char>) -> Seq<char> {
    if col == "number"@ {
        opt_text(row.number)
    } else if col == "sub_number"@ {
        opt_text(row.sub_number)
    } else if col == "giver_name"@ {
        opt_text(row.giver_name)
    } else if col == "receiver_name"@ {
        opt_text(row.receiver_name)
    } else if col == "place_path"@ {
        opt_text(row.place_path)
    } else if col == "printer_place"@ {
        match printer_place_cell(opt_view(row.device_name), opt_view(row.place_path)) {
            Some(c) => c,
            None => Seq::empty(),
        }
    } else if col == "act_type"@ {
        opt_text(row.act_type)
    } else if col == "device_name"@ {
        opt_text(row.device_name)
    } else if col == "quantity"@ {
        match row.quantity {
            Some(q) => signed_decimal(q as int),
            None => Seq::empty(),
        }
    } else if col == "code"@ {
        opt_text(row.code)
    } else if col == "model_label"@ {
        opt_text(row.model_label)
    } else if col == "status_name"@ {
        opt_text(row.status_name)
    } else if col == "month_key"@ {
        opt_text(row.month_key)
    } else if col == "request_type_label"@ {
        opt_text(row.request_type_label)
    } else {
        Seq::empty()
    }
}

/// The handover-date cell: the readable local date and time, or empty
/// when there is no date or it is out of range.
pub open spec fn handover_cell(ts: Option<i64>, off: int, s: Seq<char>) -> bool {
    match ts {
        None => s.len() == 0,
        Some(t) => if !timestamp_in_range(t as int) {
            s.len() == 0
        } else {
            exists|p: DateTimeParts| parts_of(t as int, off, p) && s == short_date_time_text(p)
        },
    }
}

/// A report row's handover date can be shown in the organization's offset.
pub open spec fn row_date_fits(row: ReportRow, off: int) -> bool {
    row.handover_date_utc matches Some(t) ==> (timestamp_in_range(t as int) ==> timestamp_in_range(t + off))
}

fn opt_string(o: &Option<String>) -> (s: String)
    ensures
        s@ == opt_text(*o),
{
    match o {
        Some(x) => x.clone(),
        None => String::new(),
    }
}

/// The cell of column `col` of a report row, as exported to CSV and HTML.
pub fn row_field(row: &ReportRow, col: &str, offset_seconds: i32) -> (s: String)
    requires
        -93600 < offset_seconds < 93600,
        row_date_fits(*row, offset_seconds as int),
    ensures
        col@ == "handover_date_utc"@ ==> handover_cell(row.handover_date_utc, offset_seconds as int, s@),
        col@ != "handover_date_utc"@ ==> s@ == plain_cell(*row, col@),
{
    if str_eq(col, "handover_date_utc") {
        return match row.handover_date_utc {
            Some(ts) => format_handover_date(ts, offset_seconds),
            None => String::new(),
        };
    }
    if str_eq(col, "number") {
        opt_string(&row.number)
    } else if str_eq(col, "sub_number") {
        opt_string(&row.sub_number)
    } else if str_eq(col, "giver_name") {
        opt_string(&row.giver_name)
    } else if str_eq(col, "receiver_name") {
        opt_string(&row.receiver_name)
    } else if str_eq(col, "place_path") {
        opt_string(&row.place_path)
    } else if str_eq(col, "printer_place") {
        match combine_printer_and_place(row.device_name.clone(), row.place_path.clone()) {
            Some(c) => c,
            None => String::new(),
        }
    } else if str_eq(col, "act_type") {
        opt_string(&row.act_type)
    } else if str_eq(col, "device_name") {
        opt_string(&row.device_name)
    } else if str_eq(col, "quantity") {
        match row.quantity {
            Some(q) => crate::text::string_of(&signed_decimal_chars(q)),
            None => String::new(),
        }
    } else if str_eq(col, "code") {
        opt_string(&row.code)
    } else if str_eq(col, "model_label") {
        opt_string(&row.model_label)
    } else if str_eq(col, "status_name") {
        opt_string(&row.status_name)
    } else if str_eq(col, "month_key") {
        opt_string(&row.month_key)
    } else if str_eq(col, "request_type_label") {
        opt_string(&row.request_type_label)
    } else {
        String::new()
    }
}

// ---------------------------------------------------------------------------
// Request category filter
// ---------------------------------------------------------------------------

/// The Russian category name bound for a category key.
pub open spec fn category_name(key: Seq<char>) -> Option<Seq<char>> {
    if key == "repair"@ {
        Some("Ремонт техники"@)
    } else if key == "consumables"@ {
        Some("Расходные материалы"@)
    } else if key == "software"@ {
        Some("Программное обеспечение"@)
    } else if key == "other"@ {
        Some("Прочее"@)
    } else {
        None
    }
}

/// Exactly the four keys `repair`, `consumables`, `software` and `other`
/// name request categories, each a different one.
pub proof fn category_keys_are_distinct(a: Seq<char>, b: Seq<char>)
    ensures
        category_name(a) is Some <==> (a == "repair"@ || a == "consumables"@ || a == "software"@ || a == "other"@),
        category_name(a) is Some && a != b ==> category_name(a) != category_name(b),
{
    reveal_strlit("repair");
    reveal_strlit("consumables");
    reveal_strlit("software");
    reveal_strlit("other");
    reveal_strlit("Ремонт техники");
    reveal_strlit("Расходные материалы");
    reveal_strlit("Программное обеспечение");
    reveal_strlit("Прочее");
    assert("Ремонт техники"@[1] != "Расходные материалы"@[1]);
    assert("Ремонт техники"@[0] != "Программное обеспечение"@[0] && "Ремонт техники"@[0] != "Прочее"@[0]);
    assert("Расходные материалы"@[0] != "Программное обеспечение"@[0] && "Расходные материалы"@[0] != "Прочее"@[0]);
    assert("Программное обеспечение"@[3] != "Прочее"@[3]);
}

/// The predicate of one known key, given the index its parameter would get.
pub open spec fn key_predicate(key: Seq<char>, idx: nat) -> Option<Seq<char>> {
    if key == "ad_register"@ {
        Some("r.request_type = 'ad_register'"@)
    } else if key == "cartridge_replace"@ {
        Some("r.request_type = 'cartridge_replace'"@)
    } else if key == "no_category"@ {
        Some("(r.request_type = 'free_form' AND r.category_id IS NULL)"@)
    } else if category_name(key) is Some {
        Some("(r.request_type = 'free_form' AND r.category_id = (SELECT id FROM request_categories WHERE name = ?"@
            + decimal(idx) + "))"@)
    } else {
        None
    }
}

/// The predicates and new parameters of `keys`, with `n` parameters bound
/// before them (parameters are numbered from 1).
pub open spec fn category_parts(keys: Seq<Seq<char>>, n: nat) -> (Seq<Seq<char>>, Seq<Seq<char>>)
    decreases keys.len(),
{
    if keys.len() == 0 {
        (Seq::empty(), Seq::empty())
    } else {
        let prev = category_parts(keys.drop_last(), n);
        let k = keys.last();
        let idx = n + prev.1.len() + 1;
        match key_predicate(k, idx) {
            Some(p) => (prev.0.push(p), match category_name(k) {
                Some(c) => prev.1.push(c),
                None => prev.1,
            }),
            None => prev,
        }
    }
}

/// `parts` joined with `sep`.
pub open spec fn join_with(parts: Seq<Seq<char>>, sep: Seq<char>) -> Seq<char>
    decreases parts.len(),
{
    if parts.len() == 0 {
        Seq::empty()
    } else if parts.len() == 1 {
        parts[0]
    } else {
        join_with(parts.drop_last(), sep) + sep + parts.last()
    }
}

/// The WHERE fragment of a request-category selection: no selection means
/// no restriction (`None`); an empty selection, or one of unknown keys only,
/// matches nothing (`1 = 0`); otherwise the OR of the known keys'
/// predicates, unknown keys skipped.
pub open spec fn category_clause(keys: Option<Seq<Seq<char>>>, n: nat) -> Option<Seq<char>> {
    match keys {
        None => None,
        Some(ks) => {
            let parts = category_parts(ks, n);
            if ks.len() == 0 || parts.0.len() == 0 {
                Some("1 = 0"@)
            } else {
                Some("("@ + join_with(parts.0, " OR "@) + ")"@)
            }
        },
    }
}

/// How many keys name a request category.
pub open spec fn count_named(keys: Seq<Seq<char>>) -> nat
    decreases keys.len(),
{
    if keys.len() == 0 {
        0
    } else {
        count_named(keys.drop_last()) + if category_name(keys.last()) is Some { 1nat } else { 0nat }
    }
}

/// How many keys the category filter knows.
pub open spec fn count_known(keys: Seq<Seq<char>>) -> nat
    decreases keys.len(),
{
    if keys.len() == 0 {
        0
    } else {
        count_known(keys.drop_last()) + if key_predicate(keys.last(), 0) is Some { 1nat } else { 0nat }
    }
}

/// The category filter binds one parameter per key that names a category
/// and adds one predicate per known key; no selection restricts nothing,
/// and a selection without a known key (the empty one included) matches
/// nothing.
pub proof fn category_filter_counts(keys: Seq<Seq<char>>, n: nat)
    ensures
        category_parts(keys, n).1.len() == count_named(keys),
        category_parts(keys, n).0.len() == count_known(keys),
        category_clause(None, n) is None,
        count_known(keys) == 0 ==> category_clause(Some(keys), n) == Some("1 = 0"@),
    decreases keys.len(),
{
    if keys.len() > 0 {
        category_filter_counts(keys.drop_last(), n);
        let prev = category_parts(keys.drop_last(), n);
        let k = keys.last();
        let idx = n + prev.1.len() + 1;
        assert(key_predicate(k, idx) is Some <==> key_predicate(k, 0) is Some);
        assert(category_name(k) is Some ==> key_predicate(k, 0) is Some);
    }
}

proof fn lemma_category_keys_distinct()
    ensures
        category_name("ad_register"@) is None,
        category_name("cartridge_replace"@) is None,
        category_name("no_category"@) is None,
{
    reveal_strlit("ad_register");
    reveal_strlit("cartridge_replace");
    reveal_strlit("no_category");
    reveal_strlit("repair");
    reveal_strlit("consumables");
    reveal_strlit("software");
    reveal_strlit("other");
    assert("ad_register"@[0] != "consumables"@[0]);
    assert("no_category"@[0] != "consumables"@[0]);
    assert("ad_register"@.len() != "repair"@.len());
    assert("ad_register"@.len() != "software"@.len());
    assert("ad_register"@.len() != "other"@.len());
    assert("no_category"@.len() != "repair"@.len());
    assert("no_category"@.len() != "software"@.len());
    assert("no_category"@.len() != "other"@.len());
    assert("cartridge_replace"@.len() != "repair"@.len());
    assert("cartridge_replace"@.len() != "consumables"@.len());
    assert("cartridge_replace"@.len() != "software"@.len());
    assert("cartridge_replace"@.len() != "other"@.len());
}

/// Builds the request-category WHERE fragment. `param_count` parameters are
/// already bound; the fixed category names the fragment refers to are
/// returned in order, to be bound after them.
pub fn category_filter_clause(keys: Option<&Vec<String>>, param_count: usize) -> (r: (Option<String>, Vec<String>))
    requires
        param_count + 4 * (match keys { Some(k) => k.len() as int, None => 0 }) < usize::MAX,
    ensures
        opt_view(r.0) == category_clause(match keys { Some(k) => Some(k@.map_values(|s: String| s@)), None => None }, param_count as nat),
        r.1@.map_values(|s: String| s@) == (match keys {
            Some(k) => category_parts(k@.map_values(|s: String| s@), param_count as nat).1,
            None => Seq::empty(),
        }),
{
    let keys = match keys {
        Some(k) => k,
        None => return (None, Vec::new()),
    };
    let ghost kv = keys@.map_values(|s: String| s@);
    let mut ors: Vec<String> = Vec::new();
    let mut params: Vec<String> = Vec::new();
    let mut i: usize = 0;
    while i < keys.len()
        invariant
            kv == keys@.map_values(|s: String| s@),
            i <= keys.len(),
            param_count + 4 * keys.len() < usize::MAX,
            params@.len() <= i,
            (ors@.map_values(|s: String| s@), params@.map_values(|s: String| s@))
                == category_parts(kv.subrange(0, i as int), param_count as nat),
        decreases keys.len() - i,
    {
        let k = keys[i].as_str();
        assert(kv.subrange(0, i + 1).drop_last() =~= kv.subrange(0, i as int));
        assert(kv.subrange(0, i + 1).last() == k@);
        let ghost ov = ors@.map_values(|s: String| s@);
        let ghost pv = params@.map_values(|s: String| s@);
        let idx: usize = param_count + params.len() + 1;
        let pred: Option<String> = if str_eq(k, "ad_register") {
            Some("r.request_type = 'ad_register'".to_owned())
        } else if str_eq(k, "cartridge_replace") {
            Some("r.request_type = 'cartridge_replace'".to_owned())
        } else if str_eq(k, "no_category") {
            Some("(r.request_type = 'free_form' AND r.category_id IS NULL)".to_owned())
        } else {
            let name: Option<&'static str> = if str_eq(k, "repair") {
                Some("Ремонт техники")
            } else if str_eq(k, "consumables") {
                Some("Расходные материалы")
            } else if str_eq(k, "software") {
                Some("Программное обеспечение")
            } else if str_eq(k, "other") {
                Some("Прочее")
            } else {
                None
            };
            match name {
                Some(c) => {
                    let ghost pv0 = params@.map_values(|s: String| s@);
                    params.push(c.to_owned());
                    assert(params@.map_values(|s: String| s@) =~= pv0.push(c@));
                    let mut p = String::new();
                    p.append("(r.request_type = 'free_form' AND r.category_id = (SELECT id FROM request_categories WHERE name = ?");
                    push_all(&mut p, &crate::text::decimal_chars(idx as u64));
                    p.append("))");
                    Some(p)
                },
                None => None,
            }
        };
        proof {
            assert(pv.len() == params@.len() || params@.len() == pv.len() + 1);
            assert(idx == param_count + pv.len() + 1);
            reveal_strlit("ad_register");
            reveal_strlit("cartridge_replace");
            reveal_strlit("no_category");
            reveal_strlit("repair");
            reveal_strlit("consumables");
            reveal_strlit("software");
            reveal_strlit("other");
            lemma_category_keys_distinct();
        }
        match pred {
            Some(p) => {
                let ghost pw = p@;
                ors.push(p);
                assert(ors@.map_values(|s: String| s@) =~= ov.push(pw));
            },
            None => {},
        }
        proof {
            let sub = kv.subrange(0, i + 1);
            let prev = category_parts(kv.subrange(0, i as int), param_count as nat);
            assert(prev.0 == ov);
            assert(prev.1 == pv);
            let kp = key_predicate(k@, idx as nat);
            assert(category_parts(sub, param_count as nat) == (match kp {
                Some(pp) => (prev.0.push(pp), match category_name(k@) {
                    Some(c) => prev.1.push(c),
                    None => prev.1,
                }),
                None => prev,
            }));
            assert(ors@.map_values(|s: String| s@) == category_parts(sub, param_count as nat).0);
            assert(params@.map_values(|s: String| s@) == category_parts(sub, param_count as nat).1);
        }
        i = i + 1;
    }
    assert(kv.subrange(0, keys.len() as int) =~= kv);
    if keys.len() == 0 || ors.len() == 0 {
        return (Some("1 = 0".to_owned()), params);
    }
    let mut out = String::new();
    out.append("(");
    let mut j: usize = 0;
    let ghost ov = ors@.map_values(|s: String| s@);
    while j < ors.len()
        invariant
            ov == ors@.map_values(|s: String| s@),
            ors.len() >= 1,
            j <= ors.len(),
            j == 0 ==> out@ == "("@,
            j > 0 ==> out@ == "("@ + join_with(ov.subrange(0, j as int), " OR "@),
        decreases ors.len() - j,
    {
        let ghost pre = out@;
        if j > 0 {
            out.append(" OR ");
        }
        out.append(ors[j].as_str());
        proof {
            let sub = ov.subrange(0, j + 1);
            assert(sub.drop_last() =~= ov.subrange(0, j as int));
            if j == 0 {
                assert(join_with(sub, " OR "@) == sub[0]);
                assert(out@ =~= "("@ + join_with(sub, " OR "@));
            } else {
                assert(out@ =~= "("@ + join_with(sub, " OR "@));
            }
        }
        j = j + 1;
    }
    assert(ov.subrange(0, ors.len() as int) =~= ov);
    out.append(")");
    (Some(out), params)
}

// ---------------------------------------------------------------------------
// Report counts
// ---------------------------------------------------------------------------

/// One badge count of the reports page.
#[derive(Clone, Copy, Debug, PartialEq, Eq, Structural)]
pub enum CountQuery {
    HandoverActs,
    ReturnActs,
    DevicesInUse,
    DevicesInStock,
    CartridgeInstalls,
    CartridgeRefills,
    CartridgesInUse,
    CartridgesInStock,
    RequestsAll,
    RequestsOpen,
    RequestsInProgress,
    RequestsCompleted,
}

/// The badge key of a count.
pub open spec fn count_key_spec(q: CountQuery) -> Seq<char> {
    match q {
        CountQuery::HandoverActs => "acts"@,
        CountQuery::ReturnActs => "returns"@,
        CountQuery::DevicesInUse => "in_use"@,
        CountQuery::DevicesInStock => "in_stock"@,
        CountQuery::CartridgeInstalls => "consumption"@,
        CountQuery::CartridgeRefills => "refills"@,
        CountQuery::CartridgesInUse => "in_use"@,
        CountQuery::CartridgesInStock => "in_stock"@,
        CountQuery::RequestsAll => "all"@,
        CountQuery::RequestsOpen => "open"@,
        CountQuery::RequestsInProgress => "in_progress"@,
        CountQuery::RequestsCompleted => "completed"@,
    }
}

/// The badge key of a count.
pub fn count_key(q: CountQuery) -> (s: &'static str)
    ensures
        s@ == count_key_spec(q),
{
    match q {
        CountQuery::HandoverActs => "acts",
        CountQuery::ReturnActs => "returns",
        CountQuery::DevicesInUse => "in_use",
        CountQuery::DevicesInStock => "in_stock",
        CountQuery::CartridgeInstalls => "consumption",
        CountQuery::CartridgeRefills => "refills",
        CountQuery::CartridgesInUse => "in_use",
        CountQuery::CartridgesInStock => "in_stock",
        CountQuery::RequestsAll => "all",
        CountQuery::RequestsOpen => "open",
        CountQuery::RequestsInProgress => "in_progress",
        CountQuery::RequestsCompleted => "completed",
    }
}

/// The counts shown for a report domain, in badge order; an unknown domain
/// has none.
pub open spec fn count_plan_spec(domain: Seq<char>) -> Seq<CountQuery> {
    if domain == "devices"@ {
        seq![CountQuery::HandoverActs, CountQuery::ReturnActs, CountQuery::DevicesInUse, CountQuery::DevicesInStock]
    } else if domain == "cartridges"@ {
        seq![CountQuery::CartridgeInstalls, CountQuery::CartridgeRefills, CountQuery::CartridgesInUse,
            CountQuery::CartridgesInStock]
    } else if domain == "requests"@ {
        seq![CountQuery::RequestsAll, CountQuery::RequestsOpen, CountQuery::RequestsInProgress,
            CountQuery::RequestsCompleted]
    } else {
        Seq::empty()
    }
}

/// The badge keys of a report domain, in order: devices give acts,
/// returns, in use, in stock; cartridges give consumption, refills, in use,
/// in stock; requests give all, open, in progress, completed; any other
/// domain gives none.
pub proof fn report_count_keys(domain: Seq<char>)
    ensures
        count_plan_spec(domain).map_values(|q: CountQuery| count_key_spec(q)) == (if domain == "devices"@ {
            seq!["acts"@, "returns"@, "in_use"@, "in_stock"@]
        } else if domain == "cartridges"@ {
            seq!["consumption"@, "refills"@, "in_use"@, "in_stock"@]
        } else if domain == "requests"@ {
            seq!["all"@, "open"@, "in_progress"@, "completed"@]
        } else {
            Seq::<Seq<char>>::empty()
        }),
{
    assert(count_plan_spec(domain).map_values(|q: CountQuery| count_key_spec(q)) =~= (if domain == "devices"@ {
        seq!["acts"@, "returns"@, "in_use"@, "in_stock"@]
    } else if domain == "cartridges"@ {
        seq!["consumption"@, "refills"@, "in_use"@, "in_stock"@]
    } else if domain == "requests"@ {
        seq!["all"@, "open"@, "in_progress"@, "completed"@]
    } else {
        Seq::<Seq<char>>::empty()
    }));
}

/// The counts to run for a report domain.
pub fn report_count_plan(domain: &str) -> (p: Vec<CountQuery>)
    ensures
        p@ == count_plan_spec(domain@),
{
    if str_eq(domain, "devices") {
        let p = vec![CountQuery::HandoverActs, CountQuery::ReturnActs, CountQuery::DevicesInUse,
            CountQuery::DevicesInStock];
        assert(p@ =~= count_plan_spec(domain@));
        p
    } else if str_eq(domain, "cartridges") {
        let p = vec![CountQuery::CartridgeInstalls, CountQuery::CartridgeRefills, CountQuery::CartridgesInUse,
            CountQuery::CartridgesInStock];
        assert(p@ =~= count_plan_spec(domain@));
        p
    } else if str_eq(domain, "requests") {
        let p = vec![CountQuery::RequestsAll, CountQuery::RequestsOpen, CountQuery::RequestsInProgress,
            CountQuery::RequestsCompleted];
        assert(p@ =~= count_plan_spec(domain@));
        p
    } else {
        let p: Vec<CountQuery> = Vec::new();
        assert(p@ =~= count_plan_spec(domain@));
        p
    }
}

/// The request status a request count filters on (none for "all").
pub fn count_request_status(q: CountQuery) -> (s: Option<&'static str>)
    ensures
        q == CountQuery::RequestsOpen ==> (s matches Some(x) && x@ == "open"@),
        q == CountQuery::RequestsInProgress ==> (s matches Some(x) && x@ == "in_progress"@),
        q == CountQuery::RequestsCompleted ==> (s matches Some(x) && x@ == "completed"@),
        !(q == CountQuery::RequestsOpen || q == CountQuery::RequestsInProgress || q == CountQuery::RequestsCompleted)
            ==> s is None,
{
    match q {
        CountQuery::RequestsOpen => Some("open"),
        CountQuery::RequestsInProgress => Some("in_progress"),
        CountQuery::RequestsCompleted => Some("completed"),
        _ => None,
    }
}

/// The status name a snapshot count filters on.
pub fn count_snapshot_status(q: CountQuery) -> (s: Option<&'static str>)
    ensures
        (q == CountQuery::DevicesInUse || q == CountQuery::CartridgesInUse) ==> (s matches Some(x) && x@ == "В работе"@),
        (q == CountQuery::DevicesInStock || q == CountQuery::CartridgesInStock) ==> (s matches Some(x) && x@ == "На складе"@),
        !(q == CountQuery::DevicesInUse || q == CountQuery::CartridgesInUse || q == CountQuery::DevicesInStock
            || q == CountQuery::CartridgesInStock) ==> s is None,
{
    match q {
        CountQuery::DevicesInUse | CountQuery::CartridgesInUse => Some("В работе"),
        CountQuery::DevicesInStock | CountQuery::CartridgesInStock => Some("На складе"),
        _ => None,
    }
}

/// One badge: its key and count.
#[derive(Clone, Debug, PartialEq, Eq)]
pub struct ReportCountEntry {
    pub key: String,
    pub count: i64,
}

/// The badges from the counts that ran: a count that failed shows 0 rather
/// than breaking the page.
pub fn report_counts(plan: &Vec<CountQuery>, results: &Vec<Option<i64>>) -> (r: Vec<ReportCountEntry>)
    requires
        plan.len() == results.len(),
    ensures
        r.len() == plan.len(),
        forall|i: int| 0 <= i < r.len() ==> (#[trigger] r@[i]).key@ == count_key_spec(plan@[i])
            && r@[i].count == (match results@[i] { Some(c) => c, None => 0 }),
{
    let mut r: Vec<ReportCountEntry> = Vec::new();
    let mut i: usize = 0;
    while i < plan.len()
        invariant
            plan.len() == results.len(),
            i <= plan.len(),
            r.len() == i,
            forall|k: int| 0 <= k < i ==> (#[trigger] r@[k]).key@ == count_key_spec(plan@[k])
                && r@[k].count == (match results@[k] { Some(c) => c, None => 0 }),
        decreases plan.len() - i,
    {
        let count = match results[i] {
            Some(c) => c,
            None => 0,
        };
        r.push(ReportCountEntry { key: count_key(plan[i]).to_owned(), count });
        i = i + 1;
    }
    r
}

// ---------------------------------------------------------------------------
// CSV export
// ---------------------------------------------------------------------------

/// The text the `csv` crate writes for `records` with `;` as delimiter and
/// its default quoting (`WriterBuilder::new().delimiter(b';')`).
pub uninterp spec fn csv_semicolon_text(records: Seq<Seq<Seq<char>>>) -> Seq<char>;

/// A CSV writer into a byte buffer (`csv::Writer<Vec<u8>>`), held opaque.
#[verifier::external_body]
pub struct CsvSink {
    wtr: csv::Writer<Vec<u8>>,
}

/// The records a CSV sink has taken, in order.
pub uninterp spec fn csv_records_written(w: CsvSink) -> Seq<Seq<Seq<char>>>;

/// The sink holds no part of a refused record: every write so far
/// succeeded, so its buffer is the text of the records taken.
pub uninterp spec fn csv_clean(w: CsvSink) -> bool;

/// A record the sink accepts: the first record fixes the number of fields
/// (the writer is not `flexible`), every later one must have as many.
pub open spec fn csv_fits(taken: Seq<Seq<Seq<char>>>, record: Seq<Seq<char>>) -> bool {
    taken.len() == 0 || record.len() == taken[0].len()
}

/// The nested view of CSV records.
pub open spec fn records_view(records: Seq<Vec<String>>) -> Seq<Seq<Seq<char>>> {
    records.map_values(|r: Vec<String>| r@.map_values(|c: String| c@))
}

/// The text of a record.
pub open spec fn record_view(r: Seq<String>) -> Seq<Seq<char>> {
    r.map_values(|c: String| c@)
}

/// Calls `csv::WriterBuilder::new().delimiter(b';').from_writer(Vec::new())`:
/// a clean writer into an empty buffer that has taken no record yet.
#[verifier::external_body]
pub(crate) fn csv_semicolon_writer() -> (w: CsvSink)
    ensures
        csv_records_written(w) == Seq::<Seq<Seq<char>>>::empty(),
        csv_clean(w),
{
    CsvSink { wtr: csv::WriterBuilder::new().delimiter(b';').from_writer(Vec::new()) }
}

/// Calls `Writer::write_record`; when it succeeds the record follows those
/// taken before and the sink stays clean. Into a `Vec` no write fails, so
/// the only refusal is a record whose field count differs from the first
/// record's (`ErrorKind::UnequalLengths`): on a clean sink a record that
/// fits is taken. What the sink holds after a failure is not stated; the
/// error's text is returned.
#[verifier::external_body]
pub(crate) fn csv_write_record(w: &mut CsvSink, record: &Vec<String>) -> (r: Result<(), String>)
    ensures
        csv_clean(*old(w)) && csv_fits(csv_records_written(*old(w)), record_view(record@)) ==> r is Ok,
        r is Ok ==> csv_records_written(*final(w)) == csv_records_written(*old(w)).push(record_view(record@)),
        r is Ok ==> csv_clean(*old(w)) ==> csv_clean(*final(w)),
{
    w.wtr.write_record(record).map_err(|e| e.to_string())
}

/// Calls `Writer::into_inner`, which flushes and hands back the buffer.
/// Flushing into a `Vec` does not fail; from a clean sink the buffer is the
/// UTF-8 bytes of the named `csv_semicolon_text` of the records taken.
#[verifier::external_body]
pub(crate) fn csv_into_inner(w: CsvSink) -> (r: Result<Vec<u8>, String>)
    ensures
        r is Ok,
        r matches Ok(b) ==> (csv_clean(w) ==> b@ == vstd::utf8::encode_utf8(csv_semicolon_text(csv_records_written(w)))),
{
    w.wtr.into_inner().map_err(|e| e.to_string())
}

/// Calls `String::from_utf8`: valid UTF-8 gives the string it encodes, and
/// only bytes that are not valid UTF-8 give the error (its text returned).
#[verifier::external_body]
pub(crate) fn string_from_utf8(bytes: Vec<u8>) -> (r: Result<String, String>)
    ensures
        r matches Ok(s) ==> vstd::utf8::encode_utf8(s@) == bytes@,
        r is Err ==> !vstd::utf8::valid_utf8(bytes@),
{
    String::from_utf8(bytes).map_err(|e| e.to_string())
}

/// `String::into_bytes`: the UTF-8 bytes of the string.
#[verifier::external_body]
fn string_into_bytes(s: String) -> (b: Vec<u8>)
    ensures
        b@ == vstd::utf8::encode_utf8(s@),
{
    s.into_bytes()
}

pub(crate) fn internal_error(prefix: &str, message: String) -> (e: AppError)
    ensures
        e is Internal,
{
    let mut chain = String::new();
    chain.append(prefix);
    chain.append(message.as_str());
    AppError::Internal { source_chain: chain }
}

/// The texts of a list of strings.
pub open spec fn strings_view(v: Seq<String>) -> Seq<Seq<char>> {
    v.map_values(|c: String| c@)
}

/// `cell` is the raw value of column `col` of `row`.
pub open spec fn cell_ok(row: ReportRow, col: Seq<char>, off: int, cell: Seq<char>) -> bool {
    if col == "handover_date_utc"@ {
        handover_cell(row.handover_date_utc, off, cell)
    } else {
        cell == plain_cell(row, col)
    }
}

/// `recs` are the CSV records of a report: the column keys as header, then
/// for each row the raw cells `raws` made safe against formula injection.
pub open spec fn report_records(
    rows: Seq<ReportRow>,
    columns: Seq<Seq<char>>,
    off: int,
    raws: Seq<Seq<Seq<char>>>,
    recs: Seq<Seq<Seq<char>>>,
) -> bool {
    &&& recs.len() == rows.len() + 1
    &&& raws.len() == rows.len()
    &&& recs[0] == columns
    &&& forall|i: int| 0 <= i < rows.len() ==> (#[trigger] recs[i + 1]).len() == columns.len()
        && raws[i].len() == columns.len()
    &&& forall|i: int, j: int| 0 <= i < rows.len() && 0 <= j < columns.len() ==>
        cell_ok(rows[i], columns[j], off, #[trigger] raws[i][j]) && recs[i + 1][j] == csv_safe_spec(raws[i][j])
}

/// A text that starts with the byte-order mark encodes to `EF BB BF`
/// followed by the encoding of the rest.
pub proof fn bom_bytes(t: Seq<char>)
    ensures
        vstd::utf8::encode_utf8(seq!['\u{FEFF}'] + t) == seq![0xEFu8, 0xBBu8, 0xBFu8] + vstd::utf8::encode_utf8(t),
{
    let s = seq!['\u{FEFF}'] + t;
    assert(s[0] == '\u{FEFF}');
    assert(s.drop_first() =~= t);
    let u: u32 = 0xFEFF;
    assert('\u{FEFF}' as u32 == u);
    assert(0xE0u8 | ((u >> 12u32) & 0x0Fu32) as u8 == 0xEFu8) by (bit_vector)
        requires
            u == 0xFEFFu32,
    ;
    assert(0x80u8 | ((u >> 6u32) & 0x3Fu32) as u8 == 0xBBu8) by (bit_vector)
        requires
            u == 0xFEFFu32,
    ;
    assert(0x80u8 | (u & 0x3Fu32) as u8 == 0xBFu8) by (bit_vector)
        requires
            u == 0xFEFFu32,
    ;
    assert(vstd::utf8::encode_scalar(u) =~= seq![0xEFu8, 0xBBu8, 0xBFu8]);
}

/// Exports report rows as semicolon-separated CSV: the column keys as the
/// header line, one line per row with every cell made formula-safe, the
/// whole text preceded by a UTF-8 byte-order mark. Every record has one
/// cell per column, so the writer accepts them all and the export succeeds.
pub fn export_csv(rows: &Vec<ReportRow>, columns: &Vec<String>, offset_seconds: i32) -> (r: Result<Vec<u8>, AppError>)
    requires
        -93600 < offset_seconds < 93600,
        forall|i: int| 0 <= i < rows.len() ==> row_date_fits(#[trigger] rows@[i], offset_seconds as int),
    ensures
        r is Ok,
        r matches Ok(bytes) ==> bytes@.len() >= 3 && bytes@[0] == 0xEFu8 && bytes@[1] == 0xBBu8 && bytes@[2] == 0xBFu8,
        r matches Ok(bytes) ==> exists|raws: Seq<Seq<Seq<char>>>, recs: Seq<Seq<Seq<char>>>|
            #[trigger] report_records(rows@, strings_view(columns@), offset_seconds as int, raws, recs)
            && bytes@ == vstd::utf8::encode_utf8(seq!['\u{FEFF}'] + csv_semicolon_text(recs)),
{
    let ghost cols = strings_view(columns@);
    let ghost mut raws: Seq<Seq<Seq<char>>> = Seq::empty();
    let mut wtr = csv_semicolon_writer();
    match csv_write_record(&mut wtr, columns) {
        Ok(()) => {},
        Err(m) => return Err(internal_error("csv header: ", m)),
    }
    assert(csv_records_written(wtr) =~= seq![cols]);
    let mut i: usize = 0;
    while i < rows.len()
        invariant
            -93600 < offset_seconds < 93600,
            forall|k: int| 0 <= k < rows.len() ==> row_date_fits(#[trigger] rows@[k], offset_seconds as int),
            cols == columns@.map_values(|c: String| c@),
            i <= rows.len(),
            csv_clean(wtr),
            csv_records_written(wtr).len() == i + 1,
            raws.len() == i,
            csv_records_written(wtr)[0] == cols,
            forall|k: int| 0 <= k < i ==> (#[trigger] csv_records_written(wtr)[k + 1]).len() == cols.len(),
            forall|k: int| 0 <= k < i ==> (#[trigger] raws[k]).len() == cols.len(),
            forall|k: int, q: int| 0 <= k < i && 0 <= q < cols.len() ==>
                cell_ok(rows@[k], cols[q], offset_seconds as int, #[trigger] raws[k][q])
                && csv_records_written(wtr)[k + 1][q] == csv_safe_spec(raws[k][q]),
        decreases rows.len() - i,
    {
        let row = &rows[i];
        let mut rec: Vec<String> = Vec::new();
        let ghost mut rraw: Seq<Seq<char>> = Seq::empty();
        let mut j: usize = 0;
        while j < columns.len()
            invariant
                -93600 < offset_seconds < 93600,
                row_date_fits(*row, offset_seconds as int),
                cols == columns@.map_values(|c: String| c@),
                j <= columns.len(),
                rec.len() == j,
                rraw.len() == j,
                forall|q: int| 0 <= q < j ==> cell_ok(*row, cols[q], offset_seconds as int, #[trigger] rraw[q])
                    && rec@[q]@ == csv_safe_spec(rraw[q]),
            decreases columns.len() - j,
        {
            let raw = row_field(row, columns[j].as_str(), offset_seconds);
            let safe = csv_safe(raw.as_str());
            proof {
                rraw = rraw.push(raw@);
            }
            rec.push(safe);
            j = j + 1;
        }
        let ghost pre = csv_records_written(wtr);
        match csv_write_record(&mut wtr, &rec) {
            Ok(()) => {},
            Err(m) => return Err(internal_error("csv row: ", m)),
        }
        proof {
            raws = raws.push(rraw);
            let cur = csv_records_written(wtr);
            assert(cur == pre.push(record_view(rec@)));
            assert forall|k: int| 0 <= k < i + 1 implies (#[trigger] cur[k + 1]).len() == cols.len() by {
                if k < i {
                    assert(cur[k + 1] == pre[k + 1]);
                } else {
                    assert(cur[k + 1] == record_view(rec@));
                }
            }
            assert forall|k: int| 0 <= k < i + 1 implies (#[trigger] raws[k]).len() == cols.len() by {
                if k < i {
                    assert(raws[k] == raws.drop_last()[k]);
                }
            }
            assert forall|k: int, q: int| 0 <= k < i + 1 && 0 <= q < cols.len() implies
                cell_ok(rows@[k], cols[q], offset_seconds as int, #[trigger] raws[k][q])
                && cur[k + 1][q] == csv_safe_spec(raws[k][q]) by {
                if k < i {
                    assert(cur[k + 1] == pre[k + 1]);
                } else {
                    assert(cur[k + 1] == record_view(rec@));
                    assert(cur[k + 1][q] == rec@[q]@);
                }
            }
        }
        i = i + 1;
    }
    let ghost recs = csv_records_written(wtr);
    proof {
        vstd::utf8::encode_utf8_valid_utf8(csv_semicolon_text(recs));
    }
    let bytes = match csv_into_inner(wtr) {
        Ok(b) => b,
        Err(m) => return Err(internal_error("csv flush: ", m)),
    };
    let body = match string_from_utf8(bytes) {
        Ok(t) => t,
        Err(m) => return Err(internal_error("csv utf8: ", m)),
    };
    proof {
        vstd::utf8::encode_utf8_decode_utf8(body@);
        vstd::utf8::encode_utf8_decode_utf8(csv_semicolon_text(recs));
    }
    let mut out = String::new();
    crate::text::push_char(&mut out, '\u{FEFF}');
    out.append(body.as_str());
    assert(report_records(rows@, cols, offset_seconds as int, raws, recs));
    assert(out@ =~= seq!['\u{FEFF}'] + csv_semicolon_text(recs));
    proof {
        bom_bytes(csv_semicolon_text(recs));
    }
    Ok(string_into_bytes(out))
}

// ---------------------------------------------------------------------------
// Month groups of the printable report
// ---------------------------------------------------------------------------

/// A month heading and the rows under it.
pub struct MonthGroup {
    pub month_label: String,
    pub rows: Vec<Vec<String>>,
}

/// The heading of a month group: the Russian month of the key (an absent
/// key reads as empty).
pub open spec fn group_label(current: Option<Seq<char>>) -> Seq<char> {
    month_key_label(match current { Some(c) => c, None => Seq::empty() })
}

/// The grouping state after the first rows: finished groups, the month
/// being filled and its rows. A row opens a new group when it has a
/// non-empty month key different from the current one; rows without a key
/// stay in the current group.
pub open spec fn group_state(keys: Seq<Seq<char>>, rows: Seq<Seq<Seq<char>>>)
    -> (Seq<(Seq<char>, Seq<Seq<Seq<char>>>)>, Option<Seq<char>>, Seq<Seq<Seq<char>>>)
    decreases keys.len(),
{
    if keys.len() == 0 || rows.len() == 0 {
        (Seq::empty(), None, Seq::empty())
    } else {
        let st = group_state(keys.drop_last(), rows.drop_last());
        let k = keys.last();
        let opened = k.len() > 0 && st.1 != Some(k);
        let groups = if opened && st.2.len() > 0 { st.0.push((group_label(st.1), st.2)) } else { st.0 };
        let cur = if opened { Some(k) } else { st.1 };
        let table = if opened { Seq::empty() } else { st.2 };
        (groups, cur, table.push(rows.last()))
    }
}

/// The month groups of a report, in row order.
pub open spec fn month_groups(keys: Seq<Seq<char>>, rows: Seq<Seq<Seq<char>>>) -> Seq<(Seq<char>, Seq<Seq<Seq<char>>>)> {
    let st = group_state(keys, rows);
    if st.2.len() > 0 { st.0.push((group_label(st.1), st.2)) } else { st.0 }
}

/// The view of month groups.
pub open spec fn groups_view(g: Seq<MonthGroup>) -> Seq<(Seq<char>, Seq<Seq<Seq<char>>>)> {
    g.map_values(|x: MonthGroup| (x.month_label@, records_view(x.rows@)))
}

/// The month keys of report rows (absent keys read as empty).
pub open spec fn keys_view(k: Seq<Option<String>>) -> Seq<Seq<char>> {
    k.map_values(|o: Option<String>| opt_text(o))
}

/// Splits the printable rows of a report into month groups headed by the
/// Russian month name (`month_keys[i]` is the key of row `i`).
pub fn group_rows_by_month(month_keys: &Vec<Option<String>>, rows: Vec<Vec<String>>) -> (g: Vec<MonthGroup>)
    requires
        month_keys.len() == rows.len(),
    ensures
        groups_view(g@) == month_groups(keys_view(month_keys@), records_view(rows@)),
{
    let ghost kv = keys_view(month_keys@);
    let ghost rv = records_view(rows@);
    let mut groups: Vec<MonthGroup> = Vec::new();
    let mut current: Option<String> = None;
    let mut table: Vec<Vec<String>> = Vec::new();
    let mut rows = rows;
    let ghost orig = rows@;
    let mut rest: Vec<Vec<String>> = Vec::new();
    // Take the rows out in order: reverse once, then pop from the back.
    while rows.len() > 0
        invariant
            rest@ == orig.subrange(rows@.len() as int, orig.len() as int).reverse(),
            rows@ == orig.subrange(0, rows@.len() as int),
            rows@.len() <= orig.len(),
        decreases rows.len(),
    {
        let ghost n = rows@.len();
        let x = rows.pop().unwrap();
        rest.push(x);
        assert(orig.subrange(n - 1, orig.len() as int).reverse()
            =~= orig.subrange(n as int, orig.len() as int).reverse().push(orig[n - 1]));
    }
    assert(orig.subrange(0, orig.len() as int) =~= orig);
    let mut i: usize = 0;
    let total = month_keys.len();
    assert(kv.subrange(0, 0) =~= Seq::<Seq<char>>::empty());
    assert(rv.subrange(0, 0) =~= Seq::<Seq<Seq<char>>>::empty());
    while i < total
        invariant
            total == month_keys.len(),
            total == orig.len(),
            kv == keys_view(month_keys@),
            rv == records_view(orig),
            i <= total,
            rest@.len() == total - i,
            forall|k: int| 0 <= k < rest@.len() ==> rest@[k] == #[trigger] orig[total - 1 - k],
            ({
                let st = group_state(kv.subrange(0, i as int), rv.subrange(0, i as int));
                &&& groups_view(groups@) == st.0
                &&& opt_view(current) == st.1
                &&& records_view(table@) == st.2
            }),
        decreases total - i,
    {
        assert(rest@[rest@.len() - 1] == orig[total - 1 - (rest@.len() - 1)]);
        let row = rest.pop().unwrap();
        assert(row == orig[i as int]);
        let ghost st0 = group_state(kv.subrange(0, i as int), rv.subrange(0, i as int));
        let ghost g0 = groups_view(groups@);
        let ghost ks = kv.subrange(0, i + 1);
        let ghost rs = rv.subrange(0, i + 1);
        assert(ks.drop_last() =~= kv.subrange(0, i as int));
        assert(rs.drop_last() =~= rv.subrange(0, i as int));
        assert(ks.last() == opt_text(month_keys@[i as int]));
        assert(rs.last() == row@.map_values(|c: String| c@));
        let key: &str = match &month_keys[i] {
            Some(k) => k.as_str(),
            None => "",
        };
        proof {
            reveal_strlit("");
        }
        let same = match &current {
            Some(c) => str_eq(c.as_str(), key),
            None => false,
        };
        if key.unicode_len() > 0 && !same {
            if table.len() > 0 {
                let label = match &current {
                    Some(c) => month_key_to_russian(c.as_str()),
                    None => month_key_to_russian(""),
                };
                let mut done: Vec<Vec<String>> = Vec::new();
                std::mem::swap(&mut done, &mut table);
                let ghost pre = groups_view(groups@);
                let ghost lv = label@;
                let ghost dv = records_view(done@);
                assert(lv == group_label(st0.1));
                assert(dv == st0.2);
                groups.push(MonthGroup { month_label: label, rows: done });
                assert(groups_view(groups@) =~= pre.push((lv, dv)));
            } else {
                table = Vec::new();
            }
            current = Some(key.to_owned());
        }
        let ghost tpre = records_view(table@);
        let ghost rowv = row@.map_values(|c: String| c@);
        table.push(row);
        assert(records_view(table@) =~= tpre.push(rowv));
        proof {
            let k = ks.last();
            assert(k == key@);
            let opened = k.len() > 0 && st0.1 != Some(k);
            assert(same == (st0.1 == Some(k)));
            let st1 = group_state(ks, rs);
            assert(st1.2 == (if opened { Seq::<Seq<Seq<char>>>::empty() } else { st0.2 }).push(rs.last()));
            assert(st1.1 == (if opened { Some(k) } else { st0.1 }));
            assert(records_view(table@) == st1.2);
            assert(opt_view(current) == st1.1);
            assert(groups_view(groups@) == (if opened && st0.2.len() > 0 { g0.push((group_label(st0.1), st0.2)) } else { g0 }));
            assert(groups_view(groups@) == st1.0);
        }
        i = i + 1;
    }
    assert(kv.subrange(0, total as int) =~= kv);
    assert(rv.subrange(0, total as int) =~= rv);
    if table.len() > 0 {
        let label = match &current {
            Some(c) => month_key_to_russian(c.as_str()),
            None => month_key_to_russian(""),
        };
        let ghost pre = groups_view(groups@);
        let ghost lv = label@;
        let ghost tv = records_view(table@);
        proof {
            reveal_strlit("");
            assert(""@ =~= Seq::<char>::empty());
        }
        assert(lv == group_label(group_state(kv, rv).1));
        groups.push(MonthGroup { month_label: label, rows: table });
        assert(groups_view(groups@) =~= pre.push((lv, tv)));
    }
    groups
}

/// The rows of a list of groups, in order.
pub open spec fn flat_rows(g: Seq<(Seq<char>, Seq<Seq<Seq<char>>>)>) -> Seq<Seq<Seq<char>>>
    decreases g.len(),
{
    if g.len() == 0 {
        Seq::empty()
    } else {
        flat_rows(g.drop_last()) + g.last().1
    }
}

proof fn lemma_group_state_rows(keys: Seq<Seq<char>>, rows: Seq<Seq<Seq<char>>>)
    requires
        keys.len() == rows.len(),
    ensures
        flat_rows(group_state(keys, rows).0) + group_state(keys, rows).2 == rows,
    decreases keys.len(),
{
    if keys.len() == 0 {
        assert(rows =~= Seq::<Seq<Seq<char>>>::empty());
        assert(flat_rows(Seq::<(Seq<char>, Seq<Seq<Seq<char>>>)>::empty()) + Seq::<Seq<Seq<char>>>::empty() =~= rows);
    } else {
        lemma_group_state_rows(keys.drop_last(), rows.drop_last());
        let st = group_state(keys.drop_last(), rows.drop_last());
        let k = keys.last();
        let opened = k.len() > 0 && st.1 != Some(k);
        if opened && st.2.len() > 0 {
            let g2 = st.0.push((group_label(st.1), st.2));
            assert(g2.drop_last() =~= st.0);
            assert(flat_rows(g2) == flat_rows(st.0) + st.2);
            assert(flat_rows(g2) + Seq::<Seq<Seq<char>>>::empty().push(rows.last()) =~= rows);
        } else if opened {
            assert(st.2 =~= Seq::<Seq<Seq<char>>>::empty());
            assert(flat_rows(st.0) + Seq::<Seq<Seq<char>>>::empty().push(rows.last()) =~= rows);
        } else {
            assert(flat_rows(st.0) + st.2 == rows.drop_last());
            assert(flat_rows(st.0) + st.2.push(rows.last()) =~= (flat_rows(st.0) + st.2).push(rows.last()));
            assert(rows.drop_last().push(rows.last()) =~= rows);
        }
    }
}

/// The printable report shows every row exactly once and in order: the
/// month groups, read one after the other, give back all the rows.
pub proof fn month_groups_keep_rows(keys: Seq<Seq<char>>, rows: Seq<Seq<Seq<char>>>)
    requires
        keys.len() == rows.len(),
    ensures
        flat_rows(month_groups(keys, rows)) == rows,
{
    lemma_group_state_rows(keys, rows);
    let st = group_state(keys, rows);
    if st.2.len() > 0 {
        let g = st.0.push((group_label(st.1), st.2));
        assert(g.drop_last() =~= st.0);
    } else {
        assert(st.2 =~= Seq::<Seq<Seq<char>>>::empty());
        assert(flat_rows(st.0) =~= flat_rows(st.0) + st.2);
    }
}

} // verus!

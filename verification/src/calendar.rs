//! Proleptic Gregorian calendar facts and date formatting. Conversions
//! between calendar dates and Unix time go through the `time` crate.

use vstd::prelude::*;
use crate::text::{decimal, padded, signed_decimal, push_all, padded_chars, signed_decimal_chars, decimal_chars};

verus! {

/// Leap years of the Gregorian calendar.
pub open spec fn is_leap(y: int) -> bool {
    (y % 4 == 0 && y % 100 != 0) || y % 400 == 0
}

/// Number of days in month `m` of year `y`.
pub open spec fn days_in_month(y: int, m: int) -> int {
    if m == 2 {
        if is_leap(y) { 29 } else { 28 }
    } else if m == 4 || m == 6 || m == 9 || m == 11 {
        30
    } else {
        31
    }
}

/// A calendar date that `time::Date` can represent (years -9999..=9999).
pub open spec fn valid_date(y: int, m: int, d: int) -> bool {
    -9999 <= y && y <= 9999 && 1 <= m && m <= 12 && 1 <= d && d <= days_in_month(y, m)
}

/// Days from 1970-01-01 to the given date (negative before it).
pub open spec fn days_from_civil(y: int, m: int, d: int) -> int {
    let yy = if m <= 2 { y - 1 } else { y };
    let era = yy / 400;
    let yoe = yy - era * 400;
    let mp = (m + 9) % 12;
    let doy = (153 * mp + 2) / 5 + d - 1;
    let doe = yoe * 365 + yoe / 4 - yoe / 100 + doy;
    era * 146097 + doe - 719468
}

/// Unix time of the local date-time `y-m-d h:mi:s` at UTC offset `off` seconds.
pub open spec fn unix_seconds(y: int, m: int, d: int, h: int, mi: int, s: int, off: int) -> int {
    days_from_civil(y, m, d) * 86400 + h * 3600 + mi * 60 + s - off
}

/// Unix times that `time::OffsetDateTime` can represent
/// (-9999-01-01T00:00:00Z ..= 9999-12-31T23:59:59Z).
pub open spec fn timestamp_in_range(ts: int) -> bool {
    -377_705_116_800 <= ts && ts <= 253_402_300_799
}

/// Calendar and clock fields of a local date-time.
pub struct DateTimeParts {
    pub year: i32,
    pub month: u8,
    pub day: u8,
    pub hour: u8,
    pub minute: u8,
    pub second: u8,
}

/// `p` is the local date-time, at offset `off`, of Unix time `ts`.
pub open spec fn parts_of(ts: int, off: int, p: DateTimeParts) -> bool {
    &&& valid_date(p.year as int, p.month as int, p.day as int)
    &&& p.hour < 24 && p.minute < 60 && p.second < 60
    &&& unix_seconds(p.year as int, p.month as int, p.day as int, p.hour as int, p.minute as int, p.second as int, off) == ts
}

/// Whether `time::Date::from_calendar_date` accepts the date (the month
/// number is converted with `time::Month::try_from`). The contract states
/// the documented rule: a Gregorian date with year in -9999..=9999.
#[verifier::external_body]
pub fn calendar_date_exists(year: i32, month: u8, day: u8) -> (b: bool)
    ensures
        b == valid_date(year as int, month as int, day as int),
{
    match time::Month::try_from(month) {
        Ok(m) => time::Date::from_calendar_date(year, m, day).is_ok(),
        Err(_) => false,
    }
}

/// Unix time of a valid local date-time at an offset, through
/// `time::PrimitiveDateTime::assume_offset(..).unix_timestamp()`. The
/// contract states that this is the number of seconds since the epoch.
#[verifier::external_body]
pub fn local_to_unix(year: i32, month: u8, day: u8, hour: u8, minute: u8, second: u8, offset_seconds: i32) -> (t: i64)
    requires
        valid_date(year as int, month as int, day as int),
        hour < 24,
        minute < 60,
        second < 60,
        -93600 < offset_seconds < 93600,
    ensures
        t as int == unix_seconds(year as int, month as int, day as int, hour as int, minute as int, second as int, offset_seconds as int),
{
    let date = time::Date::from_calendar_date(year, time::Month::try_from(month).unwrap(), day).unwrap();
    let clock = time::Time::from_hms(hour, minute, second).unwrap();
    let offset = time::UtcOffset::from_whole_seconds(offset_seconds).unwrap();
    time::PrimitiveDateTime::new(date, clock).assume_offset(offset).unix_timestamp()
}

/// Local date-time of a Unix time, through
/// `time::OffsetDateTime::from_unix_timestamp` and `to_offset`: `None`
/// exactly when the timestamp is outside the representable range, else
/// the fields whose Unix time at that offset is `ts`.
#[verifier::external_body]
pub fn unix_to_local(ts: i64, offset_seconds: i32) -> (r: Option<DateTimeParts>)
    requires
        -93600 < offset_seconds < 93600,
        timestamp_in_range(ts as int) ==> timestamp_in_range(ts + offset_seconds),
    ensures
        r is None <==> !timestamp_in_range(ts as int),
        r matches Some(p) ==> parts_of(ts as int, offset_seconds as int, p),
{
    match time::OffsetDateTime::from_unix_timestamp(ts) {
        Ok(odt) => {
            let local = odt.to_offset(time::UtcOffset::from_whole_seconds(offset_seconds).unwrap());
            Some(DateTimeParts {
                year: local.year(),
                month: local.month() as u8,
                day: local.day(),
                hour: local.hour(),
                minute: local.minute(),
                second: local.second(),
            })
        },
        Err(_) => None,
    }
}

/// Number of days in a month, for `1 <= m <= 12`.
pub fn month_length(y: i32, m: u8) -> (d: u8)
    requires
        1 <= m <= 12,
    ensures
        d as int == days_in_month(y as int, m as int),
{
    if m == 2 {
        let leap = (y % 4 == 0 && y % 100 != 0) || y % 400 == 0;
        proof {
            assert((y % 4 == 0) == ((y as int) % 4 == 0)) by (bit_vector);
            assert((y % 100 == 0) == ((y as int) % 100 == 0)) by (bit_vector);
            assert((y % 400 == 0) == ((y as int) % 400 == 0)) by (bit_vector);
        }
        if leap { 29 } else { 28 }
    } else if m == 4 || m == 6 || m == 9 || m == 11 {
        30
    } else {
        31
    }
}

/// UTC offset of the organization's time zone: Europe/Moscow is UTC+3
/// (no daylight saving since 2014); any other name is treated as UTC.
pub fn tz_offset_seconds(timezone: &str) -> (off: i32)
    ensures
        off == (if timezone@ == "Europe/Moscow"@ { 10800int } else { 0int }),
{
    if crate::text::str_eq(timezone, "Europe/Moscow") {
        10800
    } else {
        0
    }
}

/// Russian month name in the genitive case ("28 мая").
pub open spec fn month_genitive(m: int) -> Seq<char> {
    if m == 1 { "января"@ } else if m == 2 { "февраля"@ } else if m == 3 { "марта"@ }
    else if m == 4 { "апреля"@ } else if m == 5 { "мая"@ } else if m == 6 { "июня"@ }
    else if m == 7 { "июля"@ } else if m == 8 { "августа"@ } else if m == 9 { "сентября"@ }
    else if m == 10 { "октября"@ } else if m == 11 { "ноября"@ } else { "декабря"@ }
}

fn month_genitive_str(m: u8) -> (s: &'static str)
    requires
        1 <= m <= 12,
    ensures
        s@ == month_genitive(m as int),
{
    match m {
        1 => "января",
        2 => "февраля",
        3 => "марта",
        4 => "апреля",
        5 => "мая",
        6 => "июня",
        7 => "июля",
        8 => "августа",
        9 => "сентября",
        10 => "октября",
        11 => "ноября",
        _ => "декабря",
    }
}

/// "28 мая 2026 г."
pub open spec fn ru_date_text(p: DateTimeParts) -> Seq<char> {
    decimal(p.day as nat) + " "@ + month_genitive(p.month as int) + " "@ + signed_decimal(p.year as int) + " г."@
}

/// "2026-05-28"
pub open spec fn iso_date_text(p: DateTimeParts) -> Seq<char> {
    padded(p.year as int, 4) + "-"@ + padded(p.month as int, 2) + "-"@ + padded(p.day as int, 2)
}

/// "27.08.26, 14:35" (two-digit year, Euclidean remainder of the year by 100).
pub open spec fn short_date_time_text(p: DateTimeParts) -> Seq<char> {
    padded(p.day as int, 2) + "."@ + padded(p.month as int, 2) + "."@ + padded((p.year as int) % 100, 2)
        + ", "@ + padded(p.hour as int, 2) + ":"@ + padded(p.minute as int, 2)
}

/// Russian long date of a Unix time (UTC): «28 мая 2026 г.», or «—» when the
/// time is outside the representable range. The date parts are those of
/// `parts_of`, which `date_time_parts_unique` shows to be unique.
pub fn format_ru_date(unix_seconds: i64) -> (s: String)
    ensures
        !timestamp_in_range(unix_seconds as int) ==> s@ == "—"@,
        timestamp_in_range(unix_seconds as int) ==> exists|p: DateTimeParts|
            parts_of(unix_seconds as int, 0, p) && s@ == ru_date_text(p),
{
    match unix_to_local(unix_seconds, 0) {
        None => "—".to_owned(),
        Some(p) => {
            let mut out = String::new();
            push_all(&mut out, &decimal_chars(p.day as u64));
            out.append(" ");
            out.append(month_genitive_str(p.month));
            out.append(" ");
            push_all(&mut out, &signed_decimal_chars(p.year as i64));
            out.append(" г.");
            assert(out@ =~= ru_date_text(p));
            out
        },
    }
}

/// ISO date of a Unix time (UTC): «2026-05-28», or «—» out of range (the
/// parts are unique by `date_time_parts_unique`).
pub fn format_iso_date(unix_seconds: i64) -> (s: String)
    ensures
        !timestamp_in_range(unix_seconds as int) ==> s@ == "—"@,
        timestamp_in_range(unix_seconds as int) ==> exists|p: DateTimeParts|
            parts_of(unix_seconds as int, 0, p) && s@ == iso_date_text(p),
{
    match unix_to_local(unix_seconds, 0) {
        None => "—".to_owned(),
        Some(p) => {
            let mut out = String::new();
            push_all(&mut out, &padded_chars(p.year as i64, 4));
            out.append("-");
            push_all(&mut out, &padded_chars(p.month as i64, 2));
            out.append("-");
            push_all(&mut out, &padded_chars(p.day as i64, 2));
            assert(out@ =~= iso_date_text(p));
            out
        },
    }
}

/// Readable date and time of a Unix time in the organization's offset:
/// «16.01.26, 01:15»; empty when the time is outside the representable
/// range (the parts are unique by `date_time_parts_unique`).
pub fn format_handover_date(unix_seconds: i64, offset_seconds: i32) -> (s: String)
    requires
        -93600 < offset_seconds < 93600,
        timestamp_in_range(unix_seconds as int) ==> timestamp_in_range(unix_seconds + offset_seconds),
    ensures
        !timestamp_in_range(unix_seconds as int) ==> s@.len() == 0,
        timestamp_in_range(unix_seconds as int) ==> exists|p: DateTimeParts|
            parts_of(unix_seconds as int, offset_seconds as int, p) && s@ == short_date_time_text(p),
{
    match unix_to_local(unix_seconds, offset_seconds) {
        None => String::new(),
        Some(p) => {
            let yy: i64 = (p.year as i64) % 100;
            let yy2: i64 = if yy < 0 { yy + 100 } else { yy };
            assert(yy2 as int == (p.year as int) % 100);
            let mut out = String::new();
            push_all(&mut out, &padded_chars(p.day as i64, 2));
            out.append(".");
            push_all(&mut out, &padded_chars(p.month as i64, 2));
            out.append(".");
            push_all(&mut out, &padded_chars(yy2, 2));
            out.append(", ");
            push_all(&mut out, &padded_chars(p.hour as i64, 2));
            out.append(":");
            push_all(&mut out, &padded_chars(p.minute as i64, 2));
            assert(out@ =~= short_date_time_text(p));
            out
        },
    }
}

} // verus!

verus! {

/// `x` divided by `d` with quotient `q` and remainder `r`.
proof fn lemma_divides(x: int, d: int, q: int, r: int)
    requires
        d > 0,
        0 <= r < d,
        x == q * d + r,
    ensures
        x / d == q,
        x % d == r,
{
    vstd::arithmetic::div_mod::lemma_fundamental_div_mod_converse(x, d, q, r);
}

/// The calendar runs without gaps or overlaps: 1970-01-01 is day 0, and
/// the day after the last day of any month (29 February in leap years,
/// 28 in others) is the first day of the following month.
pub proof fn calendar_days_follow_each_other(y: int, m: int)
    requires
        1 <= m <= 12,
    ensures
        days_from_civil(1970, 1, 1) == 0,
        days_from_civil(next_month_of(y, m).0, next_month_of(y, m).1, 1)
            == days_from_civil(y, m, days_in_month(y, m)) + 1,
{
    lemma_next_month_start(y, m);
}

/// The day after the last day of a month is the first day of the next
/// month: within a year, and from December to January of the next year.
pub(crate) proof fn lemma_next_month_start(y: int, m: int)
    requires
        1 <= m <= 12,
    ensures
        days_from_civil(next_month_of(y, m).0, next_month_of(y, m).1, 1)
            == days_from_civil(y, m, days_in_month(y, m)) + 1,
{
    if m == 2 {
        let e = y / 400;
        let k = y % 400;
        vstd::arithmetic::div_mod::lemma_fundamental_div_mod(y, 400);
        assert(y == e * 400 + k);
        let q4 = k / 4;
        let r4 = k % 4;
        vstd::arithmetic::div_mod::lemma_fundamental_div_mod(k, 4);
        lemma_divides(y, 4, e * 100 + q4, r4);
        let q100 = k / 100;
        let r100 = k % 100;
        vstd::arithmetic::div_mod::lemma_fundamental_div_mod(k, 100);
        lemma_divides(y, 100, e * 4 + q100, r100);
        if k == 0 {
            lemma_divides(y - 1, 400, e - 1, 399);
            assert(is_leap(y));
        } else {
            lemma_divides(y - 1, 400, e, k - 1);
            if r4 == 0 {
                lemma_divides(k - 1, 4, q4 - 1, 3);
            } else {
                lemma_divides(k - 1, 4, q4, r4 - 1);
            }
            if r100 == 0 {
                lemma_divides(k - 1, 100, q100 - 1, 99);
            } else {
                lemma_divides(k - 1, 100, q100, r100 - 1);
            }
        }
    }
}

/// The month after `m` of year `y`.
pub open spec fn next_month_of(y: int, m: int) -> (int, int) {
    if m == 12 { (y + 1, 1) } else { (y, m + 1) }
}

} // verus!

verus! {

/// Within a year, a later month starts after an earlier one ends.
proof fn lemma_month_order(y: int, m: int, n: int)
    requires
        1 <= m < n <= 12,
    ensures
        days_from_civil(y, m, days_in_month(y, m)) < days_from_civil(y, n, 1),
    decreases n - m,
{
    lemma_next_month_start(y, m);
    if n > m + 1 {
        lemma_month_order(y, m + 1, n);
        assert(days_from_civil(y, m + 1, days_in_month(y, m + 1))
            == days_from_civil(y, m + 1, 1) + days_in_month(y, m + 1) - 1);
    }
}

/// A valid date lies between the first and the last day of its year.
proof fn lemma_within_year(y: int, m: int, d: int)
    requires
        valid_date(y, m, d),
    ensures
        days_from_civil(y, 1, 1) <= days_from_civil(y, m, d) <= days_from_civil(y, 12, 31),
{
    assert(days_from_civil(y, m, d) == days_from_civil(y, m, 1) + d - 1);
    assert(days_from_civil(y, m, days_in_month(y, m)) == days_from_civil(y, m, 1) + days_in_month(y, m) - 1);
    if m > 1 {
        lemma_month_order(y, 1, m);
    }
    if m < 12 {
        lemma_month_order(y, m, 12);
    }
}

/// A later year starts after an earlier one ends.
proof fn lemma_year_order(y: int, z: int)
    requires
        y < z,
    ensures
        days_from_civil(y, 12, 31) < days_from_civil(z, 1, 1),
    decreases z - y,
{
    lemma_next_month_start(y, 12);
    if z > y + 1 {
        lemma_year_order(y + 1, z);
        lemma_month_order(y + 1, 1, 12);
    }
}

/// Distinct valid dates have distinct day numbers.
pub proof fn days_from_civil_injective(y1: int, m1: int, d1: int, y2: int, m2: int, d2: int)
    requires
        valid_date(y1, m1, d1),
        valid_date(y2, m2, d2),
        days_from_civil(y1, m1, d1) == days_from_civil(y2, m2, d2),
    ensures
        y1 == y2 && m1 == m2 && d1 == d2,
{
    lemma_within_year(y1, m1, d1);
    lemma_within_year(y2, m2, d2);
    if y1 < y2 {
        lemma_year_order(y1, y2);
    } else if y2 < y1 {
        lemma_year_order(y2, y1);
    } else {
        assert(days_from_civil(y1, m1, d1) == days_from_civil(y1, m1, 1) + d1 - 1);
        assert(days_from_civil(y2, m2, d2) == days_from_civil(y2, m2, 1) + d2 - 1);
        if m1 < m2 {
            lemma_month_order(y1, m1, m2);
        } else if m2 < m1 {
            lemma_month_order(y1, m2, m1);
        }
    }
}

/// A Unix time has one local date-time at a given offset: the fields of
/// `parts_of` are unique, so the texts formatted from them are fixed.
pub proof fn date_time_parts_unique(ts: int, off: int, p: DateTimeParts, q: DateTimeParts)
    requires
        parts_of(ts, off, p),
        parts_of(ts, off, q),
    ensures
        p == q,
{
    let dp = days_from_civil(p.year as int, p.month as int, p.day as int);
    let dq = days_from_civil(q.year as int, q.month as int, q.day as int);
    let rp = p.hour * 3600 + p.minute * 60 + p.second;
    let rq = q.hour * 3600 + q.minute * 60 + q.second;
    assert(dp * 86400 + rp == dq * 86400 + rq);
    if dp < dq {
        assert(dp * 86400 + 86400 <= dq * 86400) by (nonlinear_arith)
            requires
                dp < dq,
        ;
    } else if dq < dp {
        assert(dq * 86400 + 86400 <= dp * 86400) by (nonlinear_arith)
            requires
                dq < dp,
        ;
    }
    assert(dp == dq);
    days_from_civil_injective(p.year as int, p.month as int, p.day as int, q.year as int, q.month as int, q.day as int);
    assert(rp == rq);
    assert(p.hour == q.hour);
    assert(p.minute == q.minute);
}

} // verus!

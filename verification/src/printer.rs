//! Printer monitoring rules: toner level decoding, alert classification,
//! vendor identification by SNMP object id, poll outcomes and retention.

use vstd::prelude::*;
use crate::error::{AppError, is_validation, validation};
use crate::text::{
    all_digits, is_digit, chars_of, decimal, decimal_chars, digits_value, has_prefix, owned, parse_int_chars, push_all,
    split_chars, split_on, str_eq, str_starts_with, unsigned_part, lemma_decimal_digits, lemma_split_append,
    lemma_split_sep,
};

verus! {

/// Exact value of `round(level / max * 100)` for `level >= 0`, `max > 0`
/// (halves round up, as `f64::round` does for non-negative values).
pub open spec fn rounded_percent(level: int, max: int) -> int {
    (200 * level + max) / (2 * max)
}

/// Toner percentage reported for a reading, capped at 100.
pub open spec fn toner_level_spec(level: int, max: int, encoding: Seq<char>) -> Option<int> {
    if level < 0 {
        None
    } else if encoding == "percent"@ {
        Some(if level > 100 { 100 } else { level })
    } else if encoding == "level_over_max"@ {
        if max <= 0 {
            None
        } else {
            let p = rounded_percent(level, max);
            Some(if p > 100 { 100 } else { p })
        }
    } else {
        None
    }
}

/// A `level_over_max` reading is the whole percentage nearest to
/// `level / max * 100` (halves go up), and 100 once the level reaches the
/// maximum; a `percent` reading from 0 to 100 is kept as it is, a larger
/// one is capped at 100.
pub proof fn toner_percentage_is_nearest(level: int, max: int)
    requires
        0 <= level,
        0 < max,
    ensures
        toner_level_spec(level, max, "level_over_max"@) is Some,
        ({
            let p = toner_level_spec(level, max, "level_over_max"@)->0;
            &&& 0 <= p <= 100
            &&& (level < max ==> (2 * p - 1) * max <= 200 * level < (2 * p + 1) * max)
            &&& (level >= max ==> p == 100)
        }),
        level <= 100 ==> toner_level_spec(level, max, "percent"@) == Some(level),
        level > 100 ==> toner_level_spec(level, max, "percent"@) == Some(100int),
{
    reveal_strlit("percent");
    reveal_strlit("level_over_max");
    assert("percent"@.len() != "level_over_max"@.len());
    let q = (200 * level + max) / (2 * max);
    assert(2 * max * q <= 200 * level + max < 2 * max * (q + 1)) by (nonlinear_arith)
        requires
            q == (200 * level + max) / (2 * max),
            max > 0,
    ;
    assert((2 * q - 1) * max == 2 * max * q - max) by (nonlinear_arith);
    assert((2 * q + 1) * max == 2 * max * (q + 1) - max) by (nonlinear_arith);
    assert(q >= 0) by (nonlinear_arith)
        requires
            q == (200 * level + max) / (2 * max),
            max > 0,
            level >= 0,
    ;
    if level >= max {
        assert(q >= 100) by (nonlinear_arith)
            requires
                2 * max * (q + 1) > 200 * level + max,
                level >= max,
                max > 0,
        ;
    } else {
        assert(q <= 100) by (nonlinear_arith)
            requires
                2 * max * q <= 200 * level + max,
                level < max,
                max > 0,
        ;
    }
}

/// Parse a toner level value from a printer SNMP reading.
///
/// `percent`: the value already is a percentage. `level_over_max`: `level / max * 100`, rounded;
/// the ratio is rounded exactly, halves up (23 of 40 is 57.5 and gives 58).
/// Negative levels (SNMP "unknown" codes), a non-positive `max` and any
/// other encoding give `None`. Results are capped at 100.
pub fn parse_toner_level(level: i64, max: i64, encoding: &str) -> (r: Option<u8>)
    ensures
        r matches Some(p) ==> toner_level_spec(level as int, max as int, encoding@) == Some(p as int),
        r is None ==> toner_level_spec(level as int, max as int, encoding@) is None,
{
    if level < 0 {
        return None;
    }
    if str_eq(encoding, "percent") {
        return Some(if level > 100 { 100 } else { level as u8 });
    }
    if str_eq(encoding, "level_over_max") {
        if max <= 0 {
            return None;
        }
        if level >= max {
            proof {
                assert(200 * level + max >= 200 * max);
                assert((200 * level + max) / (2 * max) >= 100) by (nonlinear_arith)
                    requires
                        200 * level + max >= 200 * max,
                        max > 0,
                ;
            }
            return Some(100);
        }
        let num: i128 = 200 * (level as i128) + (max as i128);
        let den: i128 = 2 * (max as i128);
        let p: i128 = num / den;
        proof {
            assert(num < 201 * max) by (nonlinear_arith)
                requires
                    num == 200 * level + max,
                    level < max,
                    0 < max,
            ;
            assert(p <= 100) by (nonlinear_arith)
                requires
                    p == num / den,
                    den == 2 * max,
                    num < 201 * max,
                    max > 0,
                    num >= 0,
            ;
            assert(p >= 0) by (nonlinear_arith)
                requires
                    p == num / den,
                    den > 0,
                    num >= 0,
            ;
        }
        return Some(p as u8);
    }
    None
}

/// Alert type raised for a printer status: only `error` and `offline`.
pub open spec fn alert_for_status(status: Seq<char>) -> Option<Seq<char>> {
    if status == "error"@ {
        Some("error"@)
    } else if status == "offline"@ {
        Some("offline"@)
    } else {
        None
    }
}

/// Only `error` and `offline` raise an alert, and the alert has the name of
/// the status; every other status raises none.
pub proof fn alerts_name_their_status(status: Seq<char>)
    ensures
        alert_for_status("error"@) == Some("error"@),
        alert_for_status("offline"@) == Some("offline"@),
        alert_for_status(status) matches Some(a) ==> a == status,
        status != "error"@ && status != "offline"@ ==> alert_for_status(status) is None,
{
}

/// Map a printer status string to an alert type string.
pub fn detect_alert_type(status: &str) -> (r: Option<&'static str>)
    ensures
        r matches Some(a) ==> alert_for_status(status@) == Some(a@),
        r is None ==> alert_for_status(status@) is None,
{
    if str_eq(status, "error") {
        Some("error")
    } else if str_eq(status, "offline") {
        Some("offline")
    } else {
        None
    }
}

/// Vendor table, most specific prefix first.
pub open spec fn vendor_for_oid(oid: Seq<char>) -> Option<Seq<char>> {
    if has_prefix(oid, "1.3.6.1.4.1.40093"@) {
        Some("pantum"@)
    } else if has_prefix(oid, "1.3.6.1.4.1.1347"@) {
        Some("kyocera"@)
    } else if has_prefix(oid, "1.3.6.1.4.1.11"@) {
        Some("hp"@)
    } else if has_prefix(oid, "1.3.6.1.4.1.1602"@) {
        Some("canon"@)
    } else {
        None
    }
}

/// Each vendor is found by its enterprise number under `1.3.6.1.4.1`
/// (Pantum 40093, Kyocera 1347, HP 11, Canon 1602), whatever follows it;
/// an object id outside that subtree has no vendor.
pub proof fn vendors_by_enterprise_number(suffix: Seq<char>, oid: Seq<char>)
    ensures
        vendor_for_oid("1.3.6.1.4.1.40093"@ + suffix) == Some("pantum"@),
        vendor_for_oid("1.3.6.1.4.1.1347"@ + suffix) == Some("kyocera"@),
        vendor_for_oid("1.3.6.1.4.1.11"@ + suffix) == Some("hp"@),
        vendor_for_oid("1.3.6.1.4.1.1602"@ + suffix) == Some("canon"@),
        !has_prefix(oid, "1.3.6.1.4.1."@) ==> vendor_for_oid(oid) is None,
{
    reveal_strlit("1.3.6.1.4.1.40093");
    reveal_strlit("1.3.6.1.4.1.1347");
    reveal_strlit("1.3.6.1.4.1.11");
    reveal_strlit("1.3.6.1.4.1.1602");
    reveal_strlit("1.3.6.1.4.1.");
    let pa = "1.3.6.1.4.1.40093"@;
    let ky = "1.3.6.1.4.1.1347"@;
    let hp = "1.3.6.1.4.1.11"@;
    let ca = "1.3.6.1.4.1.1602"@;
    let e = "1.3.6.1.4.1."@;
    let a1 = pa + suffix;
    assert(a1.subrange(0, pa.len() as int) =~= pa);
    let a2 = ky + suffix;
    assert(a2.subrange(0, ky.len() as int) =~= ky);
    assert(a2[12] == ky[12] && a2[12] != pa[12]);
    let a3 = hp + suffix;
    assert(a3.subrange(0, hp.len() as int) =~= hp);
    assert(a3[12] == hp[12] && a3[12] != pa[12]);
    assert(a3[13] == hp[13] && a3[13] != ky[13]);
    let a4 = ca + suffix;
    assert(a4.subrange(0, ca.len() as int) =~= ca);
    assert(a4[12] == ca[12] && a4[12] != pa[12]);
    assert(a4[13] == ca[13] && a4[13] != ky[13] && a4[13] != hp[13]);
    if !has_prefix(oid, e) {
        assert forall|p: Seq<char>| p.len() >= 12 && p.subrange(0, 12) =~= e implies !has_prefix(oid, p) by {
            if has_prefix(oid, p) {
                assert(oid.subrange(0, 12) =~= oid.subrange(0, p.len() as int).subrange(0, 12));
            }
        }
        assert(pa.subrange(0, 12) =~= e);
        assert(ky.subrange(0, 12) =~= e);
        assert(hp.subrange(0, 12) =~= e);
        assert(ca.subrange(0, 12) =~= e);
    }
}

/// Map a sysObjectID prefix to a vendor name.
pub fn identify_vendor(sys_object_id: &str) -> (r: Option<&'static str>)
    ensures
        r matches Some(v) ==> vendor_for_oid(sys_object_id@) == Some(v@),
        r is None ==> vendor_for_oid(sys_object_id@) is None,
{
    if str_starts_with(sys_object_id, "1.3.6.1.4.1.40093") {
        Some("pantum")
    } else if str_starts_with(sys_object_id, "1.3.6.1.4.1.1347") {
        Some("kyocera")
    } else if str_starts_with(sys_object_id, "1.3.6.1.4.1.11") {
        Some("hp")
    } else if str_starts_with(sys_object_id, "1.3.6.1.4.1.1602") {
        Some("canon")
    } else {
        None
    }
}

/// A value returned by an SNMP GET.
pub enum SnmpValue {
    Integer(i64),
    Other,
}

/// Status word for the first returned `hrPrinterStatus` value:
/// integers 3 (idle), 4 (printing) and 5 (warmup) are `ok`; other
/// integers and a missing value are `unknown`; any non-integer is `ok`.
pub open spec fn snmp_status_spec(val: Option<SnmpValue>) -> Seq<char> {
    match val {
        Some(SnmpValue::Integer(n)) => if 3 <= n && n <= 5 { "ok"@ } else { "unknown"@ },
        Some(SnmpValue::Other) => "ok"@,
        None => "unknown"@,
    }
}

/// Map an SNMP value to a status string.
pub fn map_snmp_status(val: Option<&SnmpValue>) -> (s: String)
    ensures
        s@ == snmp_status_spec(match val { Some(v) => Some(*v), None => None }),
        val matches Some(SnmpValue::Integer(n)) ==> (s@ == "ok"@ <==> 3 <= *n <= 5),
{
    proof {
        match val {
            Some(SnmpValue::Integer(n)) => printer_states_idle_printing_warmup_are_ok(*n),
            _ => {},
        }
    }
    match val {
        Some(SnmpValue::Integer(n)) => {
            if 3 <= *n && *n <= 5 {
                owned("ok")
            } else {
                owned("unknown")
            }
        },
        Some(SnmpValue::Other) => owned("ok"),
        None => owned("unknown"),
    }
}

/// What an SNMP poll of one printer came back with.
pub enum PollOutcome {
    /// The printer answered; the values in request order.
    Answered(Vec<SnmpValue>),
    /// The printer did not answer (unreachable).
    NoAnswer,
    /// The SNMP client failed.
    Failed,
}

/// What a poll leads to: a reading with this status is stored, and when
/// `alert` is set an alert of that type is upserted and broadcast.
pub struct PollWrite {
    pub status: String,
    pub alert: Option<String>,
}

/// Decide the writes for one poll: an answer stores its mapped status
/// (with the alert that status raises); no answer stores `offline` with an
/// `offline` alert; a client failure writes nothing.
pub fn poll_decision(outcome: &PollOutcome) -> (w: Option<PollWrite>)
    ensures
        match outcome {
            PollOutcome::Answered(vals) => w matches Some(pw) && {
                let first = if vals@.len() > 0 { Some(vals@[0]) } else { None };
                &&& pw.status@ == snmp_status_spec(first)
                &&& (vals@.len() > 0 ==> (vals@[0] matches SnmpValue::Integer(n) ==> (pw.status@ == "ok"@ <==> 3 <= n <= 5)))
                &&& (pw.alert matches Some(a) ==> alert_for_status(pw.status@) == Some(a@))
                &&& (pw.alert is None ==> alert_for_status(pw.status@) is None)
            },
            PollOutcome::NoAnswer => w matches Some(pw) && {
                &&& pw.status@ == "offline"@
                &&& pw.alert matches Some(a) && a@ == "offline"@
            },
            PollOutcome::Failed => w is None,
        },
{
    match outcome {
        PollOutcome::Answered(vals) => {
            let first = if vals.len() > 0 { Some(&vals[0]) } else { None };
            let status = map_snmp_status(first);
            let alert = match detect_alert_type(status.as_str()) {
                Some(a) => Some(owned(a)),
                None => None,
            };
            Some(PollWrite { status, alert })
        },
        PollOutcome::NoAnswer => Some(PollWrite { status: owned("offline"), alert: Some(owned("offline")) }),
        PollOutcome::Failed => None,
    }
}

/// `hrPrinterStatus` idle (3), printing (4) and warmup (5) are the states of
/// a working printer: an integer status reads `ok` exactly for them, and
/// every other integer reads `unknown`.
pub proof fn printer_states_idle_printing_warmup_are_ok(n: i64)
    ensures
        snmp_status_spec(Some(SnmpValue::Integer(n))) == "ok"@ <==> 3 <= n <= 5,
        !(3 <= n <= 5) ==> snmp_status_spec(Some(SnmpValue::Integer(n))) == "unknown"@,
{
    reveal_strlit("ok");
    reveal_strlit("unknown");
    assert("ok"@.len() != "unknown"@.len());
}

/// A printer that answers a poll never raises an alert: the only statuses
/// an answer maps to are `ok` and `unknown`.
pub proof fn answered_poll_never_alerts(val: Option<SnmpValue>)
    ensures
        alert_for_status(snmp_status_spec(val)) is None,
{
    reveal_strlit("ok");
    reveal_strlit("unknown");
    reveal_strlit("error");
    reveal_strlit("offline");
    assert("ok"@.len() != "error"@.len());
    assert("ok"@.len() != "offline"@.len());
    assert("unknown"@.len() != "error"@.len());
    assert("unknown"@[0] != "offline"@[0]);
}

/// Seconds in a day.
pub const SECONDS_PER_DAY: i64 = 86400;

/// Retention cutoffs for printer readings at time `now`: readings older
/// than 90 days are deleted, those between 90 and 30 days old are thinned
/// to one a day. Returns `(retention_cutoff, downsample_cutoff)`.
pub fn prune_cutoffs(now: i64) -> (r: (i64, i64))
    requires
        now >= i64::MIN + 90 * 86400,
    ensures
        r.0 == now - 90 * 86400,
        r.1 == now - 30 * 86400,
{
    (now - 90 * SECONDS_PER_DAY, now - 30 * SECONDS_PER_DAY)
}

// ---------------------------------------------------------------------------
// Discovery
// ---------------------------------------------------------------------------

/// One octet of a dotted IPv4 address as `Ipv4Addr::from_str` accepts it:
/// one to three digits, no leading zero, at most 255.
pub open spec fn octet_ok(p: Seq<char>) -> bool {
    &&& 1 <= p.len() <= 3
    &&& all_digits(p)
    &&& !(p.len() > 1 && p[0] == '0')
    &&& digits_value(p) <= 255
}

/// The address `s` denotes, when it is a dotted IPv4 address.
pub open spec fn ipv4_spec(s: Seq<char>) -> Option<u32> {
    let parts = split_on(s, '.');
    if parts.len() == 4 && octet_ok(parts[0]) && octet_ok(parts[1]) && octet_ok(parts[2]) && octet_ok(parts[3]) {
        Some((digits_value(parts[0]) * 16777216 + digits_value(parts[1]) * 65536
            + digits_value(parts[2]) * 256 + digits_value(parts[3])) as u32)
    } else {
        None
    }
}

fn octet_value(p: &Vec<char>) -> (r: Option<u32>)
    ensures
        octet_ok(p@) ==> r == Some(digits_value(p@) as u32),
        !octet_ok(p@) ==> r is None,
        r matches Some(v) ==> v <= 255,
{
    if p.len() < 1 || p.len() > 3 {
        return None;
    }
    if p[0] == '+' {
        assert(!is_digit(p@[0]));
        return None;
    }
    if p.len() > 1 && p[0] == '0' {
        return None;
    }
    proof {
        if all_digits(p@) {
            crate::text::lemma_digits_nonneg(p@);
        }
    }
    match parse_int_chars(p, false, 0, 255) {
        Some(v) => {
            proof {
                assert(unsigned_part(p@, false) =~= p@);
            }
            Some(v as u32)
        },
        None => {
            proof {
                assert(unsigned_part(p@, false) =~= p@);
            }
            None
        },
    }
}

/// Parses a dotted IPv4 address (the form `std::net::Ipv4Addr` accepts).
pub fn parse_ipv4(s: &str) -> (r: Option<u32>)
    ensures
        r == ipv4_spec(s@),
{
    let cs = chars_of(s);
    let parts = split_chars(&cs, '.');
    if parts.len() != 4 {
        return None;
    }
    let ghost sp = split_on(s@, '.');
    assert(cs@ == s@);
    assert(parts@[0]@ == sp[0] && parts@[1]@ == sp[1] && parts@[2]@ == sp[2] && parts@[3]@ == sp[3]);
    let a = octet_value(&parts[0]);
    let b = octet_value(&parts[1]);
    let c = octet_value(&parts[2]);
    let d = octet_value(&parts[3]);
    match (a, b, c, d) {
        (Some(a), Some(b), Some(c), Some(d)) => {
            let v: u32 = a * 16777216 + b * 65536 + c * 256 + d;
            proof {
                crate::text::lemma_digits_nonneg(sp[0]);
                crate::text::lemma_digits_nonneg(sp[1]);
                crate::text::lemma_digits_nonneg(sp[2]);
                crate::text::lemma_digits_nonneg(sp[3]);
                let w: int = digits_value(sp[0]) * 16777216 + digits_value(sp[1]) * 65536
                    + digits_value(sp[2]) * 256 + digits_value(sp[3]);
                assert(a as int == digits_value(sp[0]));
                assert(b as int == digits_value(sp[1]));
                assert(c as int == digits_value(sp[2]));
                assert(d as int == digits_value(sp[3]));
                assert(v as int == w);
                assert(w as u32 == v);
            }
            Some(v)
        },
        _ => None,
    }
}

/// Parses the two ends of a discovery range; each bad end is a validation
/// error on its own field.
pub fn parse_ip_range(ip_start: &str, ip_end: &str) -> (r: Result<(u32, u32), AppError>)
    ensures
        ipv4_spec(ip_start@) is None ==> (r matches Err(e) && is_validation(e, "ip_start"@, "Некорректный IPv4-адрес"@)),
        ipv4_spec(ip_start@) is Some && ipv4_spec(ip_end@) is None
            ==> (r matches Err(e) && is_validation(e, "ip_end"@, "Некорректный IPv4-адрес"@)),
        match (ipv4_spec(ip_start@), ipv4_spec(ip_end@)) {
            (Some(a), Some(b)) => r == Ok::<(u32, u32), AppError>((a, b)),
            _ => r is Err,
        },
{
    let a = match parse_ipv4(ip_start) {
        Some(a) => a,
        None => return Err(validation("ip_start", "Некорректный IPv4-адрес")),
    };
    let b = match parse_ipv4(ip_end) {
        Some(b) => b,
        None => return Err(validation("ip_end", "Некорректный IPv4-адрес")),
    };
    Ok((a, b))
}

/// The dotted text of an IPv4 address.
pub open spec fn ipv4_text_spec(ip: u32) -> Seq<char> {
    decimal((ip / 16777216) as nat) + "."@ + decimal(((ip / 65536) % 256) as nat) + "."@
        + decimal(((ip / 256) % 256) as nat) + "."@ + decimal((ip % 256) as nat)
}

/// Formats an IPv4 address as `a.b.c.d`.
pub fn ipv4_text(ip: u32) -> (s: String)
    ensures
        s@ == ipv4_text_spec(ip),
{
    let mut s = String::new();
    push_all(&mut s, &decimal_chars((ip / 16777216) as u64));
    s.append(".");
    push_all(&mut s, &decimal_chars(((ip / 65536) % 256) as u64));
    s.append(".");
    push_all(&mut s, &decimal_chars(((ip / 256) % 256) as u64));
    s.append(".");
    push_all(&mut s, &decimal_chars((ip % 256) as u64));
    s
}

/// Formatting an address as `a.b.c.d` and parsing the text gives the
/// address back.
pub proof fn ipv4_text_round_trip(ip: u32)
    ensures
        ipv4_spec(ipv4_text_spec(ip)) == Some(ip),
{
    let a: u32 = ip / 16777216;
    let b: u32 = (ip / 65536) % 256;
    let c: u32 = (ip / 256) % 256;
    let d: u32 = ip % 256;
    lemma_decimal_digits(a as nat);
    lemma_decimal_digits(b as nat);
    lemma_decimal_digits(c as nat);
    lemma_decimal_digits(d as nat);
    let (da, db, dc, dd) = (decimal(a as nat), decimal(b as nat), decimal(c as nat), decimal(d as nat));
    reveal_strlit(".");
    assert forall|x: Seq<char>, i: int| all_digits(x) && 0 <= i < x.len() implies #[trigger] x[i] != '.' by {
        assert(is_digit(x[i]));
    }
    let e = Seq::<char>::empty();
    lemma_split_append(e, da, '.');
    assert(e + da =~= da);
    assert(split_on(da, '.') =~= seq![da]);
    lemma_split_sep(da, '.');
    lemma_split_append(da.push('.'), db, '.');
    let s2 = da.push('.') + db;
    assert(split_on(s2, '.') =~= seq![da, db]);
    lemma_split_sep(s2, '.');
    lemma_split_append(s2.push('.'), dc, '.');
    let s3 = s2.push('.') + dc;
    assert(split_on(s3, '.') =~= seq![da, db, dc]);
    lemma_split_sep(s3, '.');
    lemma_split_append(s3.push('.'), dd, '.');
    let s4 = s3.push('.') + dd;
    assert(split_on(s4, '.') =~= seq![da, db, dc, dd]);
    assert(ipv4_text_spec(ip) =~= s4);
    assert(a < 256) by (bit_vector)
        requires
            a == ip / 16777216,
    ;
    assert(((a * 16777216 + b * 65536 + c * 256 + d) as u32) == ip) by (bit_vector)
        requires
            a == ip / 16777216,
            b == (ip / 65536) % 256,
            c == (ip / 256) % 256,
            d == ip % 256,
    ;
}

/// A known printer's address is `ip`.
pub open spec fn address_is(a: Option<String>, ip: Seq<char>) -> bool {
    a matches Some(x) && x@ == ip
}

/// A discovered printer is a duplicate when a known printer has its address.
pub fn is_known_address(known: &Vec<Option<String>>, ip: &str) -> (b: bool)
    ensures
        b == exists|i: int| 0 <= i < known@.len() && #[trigger] address_is(known@[i], ip@),
{
    let mut i: usize = 0;
    while i < known.len()
        invariant
            i <= known.len(),
            forall|k: int| 0 <= k < i ==> !#[trigger] address_is(known@[k], ip@),
        decreases known.len() - i,
    {
        match &known[i] {
            Some(a) => {
                if str_eq(a.as_str(), ip) {
                    assert(address_is(known@[i as int], ip@));
                    return true;
                }
            },
            None => {},
        }
        i = i + 1;
    }
    false
}

/// The SNMP community a new printer gets: the one given, else `public`.
pub fn printer_community(given: &Option<String>) -> (s: String)
    ensures
        s@ == (match given { Some(g) => g@, None => "public"@ }),
{
    match given {
        Some(g) => g.clone(),
        None => "public".to_owned(),
    }
}

} // verus!

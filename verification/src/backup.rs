//! Database backup rules: refused destinations, file naming, configuration
//! defaults and which old backups the retention policy deletes.

use vstd::prelude::*;
use vstd::relations::injective_on;
use vstd::set_lib::{lemma_int_range, lemma_len_subset, lemma_map_size, lemma_subset_equality, set_int_range};
use crate::error::AppError;
use crate::text::{decimal, has_prefix, parse_int, push_all, signed_decimal, signed_decimal_chars};

verus! {

/// Result of a successful manual backup.
#[derive(Clone, Debug)]
pub struct BackupResult {
    pub timestamp_utc: i64,
    pub file_path: String,
}

/// Automatic-backup configuration (stored in `app_settings`).
#[derive(Clone, Debug)]
pub struct BackupConfigDto {
    pub backup_folder: Option<String>,
    pub schedule: String,
    pub retention: i64,
}

/// A UNC path (`\\server\share` or `//server/share`).
pub open spec fn is_unc(p: Seq<char>) -> bool {
    has_prefix(p, seq!['\\', '\\']) || has_prefix(p, seq!['/', '/'])
}

/// Rejects UNC destinations.
pub fn reject_unc(path: &str) -> (r: Result<(), AppError>)
    ensures
        is_unc(path@) ==> (r matches Err(AppError::Validation { field, message })
            && field@ == "path"@ && message@ == "UNC-пути не поддерживаются"@),
        !is_unc(path@) ==> r is Ok,
{
    let cs = crate::text::chars_of(path);
    let mut bs: Vec<char> = Vec::new();
    bs.push('\\');
    bs.push('\\');
    let mut fs: Vec<char> = Vec::new();
    fs.push('/');
    fs.push('/');
    assert(bs@ =~= seq!['\\', '\\']);
    assert(fs@ =~= seq!['/', '/']);
    if crate::text::starts_with(&cs, &bs) || crate::text::starts_with(&cs, &fs) {
        return Err(AppError::Validation {
            field: "path".to_owned(),
            message: "UNC-пути не поддерживаются".to_owned(),
        });
    }
    Ok(())
}

/// `trackly-backup-{timestamp}.db`
pub open spec fn backup_file_name_spec(ts: int) -> Seq<char> {
    "trackly-backup-"@ + signed_decimal(ts) + ".db"@
}

/// File name of a backup taken at `timestamp`.
pub fn backup_file_name(timestamp: i64) -> (s: String)
    ensures
        s@ == backup_file_name_spec(timestamp as int),
{
    let mut out = String::new();
    out.append("trackly-backup-");
    push_all(&mut out, &signed_decimal_chars(timestamp));
    out.append(".db");
    out
}

/// Retention setting: the stored text parsed as `i64`, 7 when missing or
/// unparseable.
pub open spec fn retention_setting(raw: Option<Seq<char>>) -> int {
    let text = match raw { Some(t) => t, None => "7"@ };
    match parse_int(text, true, i64::MIN as int, i64::MAX as int) {
        Some(v) => v,
        None => 7,
    }
}

/// A stored retention is read back as the number it spells: the decimal
/// text of any `i64` gives that value, a missing setting gives 7, and so
/// does a text with no digit in it.
pub proof fn retention_reads_back_the_stored_number(v: i64, junk: Seq<char>)
    requires
        forall|i: int| 0 <= i < junk.len() ==> !crate::text::is_digit(#[trigger] junk[i]),
    ensures
        retention_setting(Some(signed_decimal(v as int))) == v,
        retention_setting(None) == 7,
        retention_setting(Some(junk)) == 7,
{
    let t = signed_decimal(v as int);
    if v < 0 {
        let m: nat = (-(v as int)) as nat;
        crate::text::lemma_decimal_digits(m);
        assert(t[0] == '-');
        assert(t.drop_first() =~= decimal(m));
        assert(crate::text::unsigned_part(t, true) =~= decimal(m));
    } else {
        crate::text::lemma_decimal_digits(v as nat);
        assert(crate::text::is_digit(t[0]));
        assert(crate::text::unsigned_part(t, true) == t);
    }
    reveal_strlit("7");
    let seven = "7"@;
    assert(seven =~= decimal(7));
    crate::text::lemma_decimal_digits(7);
    assert(crate::text::unsigned_part(seven, true) == seven);
    let ds = crate::text::unsigned_part(junk, true);
    if ds.len() > 0 {
        if ds =~= junk.drop_first() {
            assert(ds[0] == junk[1]);
        }
        assert(!crate::text::is_digit(ds[0]));
    }
}

/// Builds the backup configuration from the three stored settings:
/// schedule defaults to `disabled`, retention to 7.
pub fn config_from_settings(backup_folder: Option<String>, schedule: Option<String>, retention: Option<String>) -> (c: BackupConfigDto)
    ensures
        c.backup_folder == backup_folder,
        c.schedule@ == (match schedule { Some(s) => s@, None => "disabled"@ }),
        c.retention as int == retention_setting(match retention { Some(r) => Some(r@), None => None }),
{
    let schedule = match schedule {
        Some(s) => s,
        None => "disabled".to_owned(),
    };
    let parsed = match &retention {
        Some(r) => crate::text::parse_i64(r.as_str()),
        None => crate::text::parse_i64("7"),
    };
    let retention = match parsed {
        Some(v) => v,
        None => 7,
    };
    BackupConfigDto { backup_folder, schedule, retention }
}

/// A file name the retention policy manages: `trackly-backup-…​.db`.
pub open spec fn is_backup_file(name: Seq<char>) -> bool {
    has_prefix(name, "trackly-backup-"@) && has_suffix(name, ".db"@)
}

/// `s` ends with `t`.
pub open spec fn has_suffix(s: Seq<char>, t: Seq<char>) -> bool {
    t.len() <= s.len() && s.subrange(s.len() - t.len(), s.len() as int) == t
}

/// Every file a backup is written to is one that retention manages, and a
/// UNC path is never such a name.
pub proof fn backup_files_are_managed(ts: int)
    ensures
        is_backup_file(backup_file_name_spec(ts)),
        !is_unc(backup_file_name_spec(ts)),
{
    let n = backup_file_name_spec(ts);
    let p = "trackly-backup-"@;
    let d = ".db"@;
    let mid = signed_decimal(ts);
    reveal_strlit("trackly-backup-");
    reveal_strlit(".db");
    assert(n.subrange(0, p.len() as int) =~= p);
    assert(n.subrange(n.len() - d.len(), n.len() as int) =~= d);
    assert(n[0] == 't');
}

/// Whether a directory entry is a backup the retention policy manages.
pub fn is_backup_file_name(name: &str) -> (b: bool)
    ensures
        b == is_backup_file(name@),
{
    let cs = crate::text::chars_of(name);
    let p = crate::text::chars_of("trackly-backup-");
    let s = crate::text::chars_of(".db");
    if !crate::text::starts_with(&cs, &p) {
        return false;
    }
    if s.len() > cs.len() {
        return false;
    }
    let off = cs.len() - s.len();
    let mut i: usize = 0;
    while i < s.len()
        invariant
            cs@ == name@,
            s@ == ".db"@,
            off == cs.len() - s.len(),
            s.len() <= cs.len(),
            i <= s.len(),
            forall|k: int| 0 <= k < i ==> cs@[off + k] == s@[k],
        decreases s.len() - i,
    {
        if cs[off + i] != s[i] {
            assert(name@.subrange(name@.len() - ".db"@.len(), name@.len() as int)[i as int] != ".db"@[i as int]);
            return false;
        }
        i = i + 1;
    }
    assert(name@.subrange(name@.len() - ".db"@.len(), name@.len() as int) =~= ".db"@);
    true
}

/// How many backups retention keeps: the setting, at least one.
pub open spec fn kept_count(retention: i64) -> int {
    if retention < 1 { 1 } else { retention as int }
}

/// `a` is older than `b` (by modification time, then by listing order).
pub open spec fn older(entries: Seq<u128>, a: int, b: int) -> bool {
    entries[a] < entries[b] || (entries[a] == entries[b] && a < b)
}

/// How many entries are older than entry `i`, among the first `n`.
pub open spec fn rank_upto(entries: Seq<u128>, i: int, n: int) -> int
    decreases n,
{
    if n <= 0 {
        0
    } else {
        rank_upto(entries, i, n - 1) + (if older(entries, n - 1, i) { 1int } else { 0int })
    }
}

/// The age rank of entry `i`: 0 for the oldest.
pub open spec fn rank(entries: Seq<u128>, i: int) -> int {
    rank_upto(entries, i, entries.len() as int)
}

/// Entry `i` is deleted: fewer than `len − kept` entries are older.
pub open spec fn is_victim(entries: Seq<u128>, i: int, retention: i64) -> bool {
    rank(entries, i) < entries.len() - kept_count(retention)
}

/// Which backups retention deletes, given their modification times (in
/// nanoseconds) in listing order: all but the newest `max(retention, 1)`,
/// equal times ordered by listing position. The result lists the indices
/// of the deleted entries in listing order.
pub fn retention_victims(mtimes: &Vec<u128>, retention: i64) -> (v: Vec<usize>)
    ensures
        forall|k: int| 0 <= k < v@.len() ==> (v@[k] as int) < mtimes@.len() && is_victim(mtimes@, #[trigger] v@[k] as int, retention),
        forall|i: int| 0 <= i < mtimes@.len() && is_victim(mtimes@, i, retention) ==> v@.contains(i as usize),
        forall|a: int, b: int| 0 <= a < b < v@.len() ==> v@[a] < v@[b],
{
    let n = mtimes.len();
    let keep: usize = if retention < 1 { 1 } else if retention as u128 > n as u128 { n } else { retention as usize };
    let mut v: Vec<usize> = Vec::new();
    if n <= keep {
        assert forall|i: int| 0 <= i < mtimes@.len() implies !is_victim(mtimes@, i, retention) by {
            lemma_rank_nonneg(mtimes@, i, n as int);
        }
        return v;
    }
    let limit: usize = n - keep;
    let mut i: usize = 0;
    while i < n
        invariant
            n == mtimes.len(),
            limit as int == n - kept_count(retention),
            i <= n,
            forall|k: int| 0 <= k < v@.len() ==> (v@[k] as int) < i && is_victim(mtimes@, #[trigger] v@[k] as int, retention),
            forall|j: int| 0 <= j < i && is_victim(mtimes@, j, retention) ==> v@.contains(j as usize),
            forall|a: int, b: int| 0 <= a < b < v@.len() ==> v@[a] < v@[b],
        decreases n - i,
    {
        let mut r: usize = 0;
        let mut j: usize = 0;
        while j < n
            invariant
                n == mtimes.len(),
                i < n,
                j <= n,
                r as int == rank_upto(mtimes@, i as int, j as int),
                r <= j,
            decreases n - j,
        {
            if mtimes[j] < mtimes[i] || (mtimes[j] == mtimes[i] && j < i) {
                r = r + 1;
            }
            j = j + 1;
        }
        if r < limit {
            let ghost pre = v@;
            v.push(i);
            proof {
                assert forall|j2: int| 0 <= j2 < i + 1 && is_victim(mtimes@, j2, retention) implies v@.contains(j2 as usize) by {
                    if j2 < i {
                        let k = choose|k: int| 0 <= k < pre.len() && pre[k] == j2 as usize;
                        assert(v@[k] == j2 as usize);
                    } else {
                        assert(v@[pre.len() as int] == i);
                    }
                }
            }
        }
        i = i + 1;
    }
    v
}

proof fn lemma_rank_nonneg(entries: Seq<u128>, i: int, n: int)
    ensures
        0 <= rank_upto(entries, i, n),
        n >= 0 ==> rank_upto(entries, i, n) <= n,
    decreases n,
{
    if n > 0 {
        lemma_rank_nonneg(entries, i, n - 1);
    }
}

proof fn lemma_rank_monotone(entries: Seq<u128>, x: int, y: int, n: int)
    requires
        0 <= x < entries.len(),
        0 <= y < entries.len(),
        !older(entries, y, x),
    ensures
        rank_upto(entries, x, n) <= rank_upto(entries, y, n),
    decreases n,
{
    if n > 0 {
        lemma_rank_monotone(entries, x, y, n - 1);
        if older(entries, n - 1, x) {
            assert(older(entries, n - 1, y));
        }
    }
}

proof fn lemma_rank_strict(entries: Seq<u128>, a: int, b: int, n: int)
    requires
        0 <= a < entries.len(),
        0 <= b < entries.len(),
        older(entries, a, b),
    ensures
        rank_upto(entries, b, n) >= rank_upto(entries, a, n) + (if 0 <= a < n { 1int } else { 0int }),
    decreases n,
{
    if n > 0 {
        lemma_rank_strict(entries, a, b, n - 1);
        if older(entries, n - 1, a) {
            assert(older(entries, n - 1, b));
        }
    }
}

proof fn lemma_rank_below(entries: Seq<u128>, i: int, n: int)
    requires
        0 <= i < entries.len(),
    ensures
        rank_upto(entries, i, n) <= (if n < 0 { 0 } else { n }) - (if 0 <= i < n { 1int } else { 0int }),
    decreases n,
{
    if n > 0 {
        lemma_rank_below(entries, i, n - 1);
    }
}

/// The ranks of the backups are `0 .. n`, one backup each.
proof fn lemma_ranks_cover(entries: Seq<u128>)
    ensures
        set_int_range(0, entries.len() as int).map(|i: int| rank(entries, i)) == set_int_range(0, entries.len() as int),
        injective_on(|i: int| rank(entries, i), set_int_range(0, entries.len() as int)),
{
    let n = entries.len() as int;
    let r = set_int_range(0, n);
    let f = |i: int| rank(entries, i);
    assert forall|a: int, b: int| r.contains(a) && r.contains(b) && #[trigger] f(a) == #[trigger] f(b) implies a == b by {
        if a != b {
            if older(entries, a, b) {
                lemma_rank_strict(entries, a, b, n);
            } else {
                lemma_rank_strict(entries, b, a, n);
            }
        }
    }
    assert(injective_on(f, r));
    lemma_int_range(0, n);
    let img = r.map(f);
    assert forall|t: int| img.contains(t) implies r.contains(t) by {
        let i = choose|i: int| r.contains(i) && f(i) == t;
        lemma_rank_nonneg(entries, i, n);
        lemma_rank_below(entries, i, n);
    }
    lemma_map_size(r, img, f);
    lemma_subset_equality(img, r);
}

/// Retention keeps exactly the newest `max(retention, 1)` backups: of `n`
/// backups, `n - max(retention, 1)` are deleted when there are more, and
/// none otherwise.
pub proof fn retention_deletes_all_but_the_newest(entries: Seq<u128>, retention: i64)
    ensures
        ({
            let victims = set_int_range(0, entries.len() as int).filter(|i: int| is_victim(entries, i, retention));
            let keep: int = if retention < 1 { 1 } else { retention as int };
            &&& victims.finite()
            &&& victims.len() == (if entries.len() > keep { entries.len() - keep } else { 0 })
        }),
{
    let n = entries.len() as int;
    let keep: int = if retention < 1 { 1 } else { retention as int };
    let r = set_int_range(0, n);
    let f = |i: int| rank(entries, i);
    let victims = r.filter(|i: int| is_victim(entries, i, retention));
    lemma_ranks_cover(entries);
    lemma_int_range(0, n);
    assert(victims.subset_of(r));
    lemma_len_subset(victims, r);
    let m: int = if n > keep { n - keep } else { 0 };
    let img = victims.map(f);
    assert forall|t: int| img.contains(t) <==> set_int_range(0, m).contains(t) by {
        if img.contains(t) {
            let i = choose|i: int| victims.contains(i) && f(i) == t;
            lemma_rank_nonneg(entries, i, n);
        }
        if set_int_range(0, m).contains(t) {
            assert(r.contains(t));
            assert(r.map(f).contains(t));
            let i = choose|i: int| r.contains(i) && f(i) == t;
            assert(victims.contains(i));
            assert(img.contains(f(i)));
        }
    }
    assert(img =~= set_int_range(0, m));
    assert(injective_on(f, victims)) by {
        assert forall|a: int, b: int| victims.contains(a) && victims.contains(b) && #[trigger] f(a) == #[trigger] f(b) implies a == b by {
            assert(r.contains(a) && r.contains(b));
        }
    }
    lemma_map_size(victims, img, f);
    lemma_int_range(0, m);
}

/// Retention deletes only backups older than every backup it keeps.
pub proof fn retention_keeps_newest(entries: Seq<u128>, retention: i64, a: int, b: int)
    requires
        0 <= a < entries.len(),
        0 <= b < entries.len(),
        is_victim(entries, a, retention),
        !is_victim(entries, b, retention),
    ensures
        older(entries, a, b),
{
    if !older(entries, a, b) {
        lemma_rank_monotone(entries, b, a, entries.len() as int);
    }
}

/// A backup copy must pass SQLite's integrity check.
pub fn check_integrity(result: &str) -> (r: Result<(), AppError>)
    ensures
        result@ == "ok"@ ==> r is Ok,
        result@ != "ok"@ ==> (r matches Err(AppError::Validation { field, message })
            && field@ == "backup"@ && message@ == "Целостность бэкапа нарушена: "@ + result@),
{
    if crate::text::str_eq(result, "ok") {
        return Ok(());
    }
    let mut msg = String::new();
    msg.append("Целостность бэкапа нарушена: ");
    msg.append(result);
    Err(AppError::Validation { field: "backup".to_owned(), message: msg })
}

/// A backup folder whose resolved path still has a `..` component is refused.
pub fn check_no_parent_component(has_parent_dir: bool) -> (r: Result<(), AppError>)
    ensures
        has_parent_dir ==> (r matches Err(AppError::Validation { field, message })
            && field@ == "backup_folder"@ && message@ == "Путь не должен содержать «..»"@),
        !has_parent_dir ==> r is Ok,
{
    if has_parent_dir {
        return Err(AppError::Validation {
            field: "backup_folder".to_owned(),
            message: "Путь не должен содержать «..»".to_owned(),
        });
    }
    Ok(())
}

} // verus!

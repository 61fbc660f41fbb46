//! Character-level text helpers with exact specifications: blank checks,
//! trimming, prefix tests, decimal parsing and decimal formatting.

use vstd::prelude::*;

verus! {

/// Appends one character to a `String` (std `String::push`).
/// The contract states that the view grows by exactly that character.
#[verifier::external_body]
pub(crate) fn push_char(s: &mut String, c: char)
    ensures
        final(s)@ == old(s)@.push(c),
{
    s.push(c);
}

/// The characters of `s`, in order.
pub fn chars_of(s: &str) -> (v: Vec<char>)
    ensures
        v@ == s@,
{
    let n = s.unicode_len();
    let mut v: Vec<char> = Vec::new();
    let mut i: usize = 0;
    while i < n
        invariant
            n == s@.len(),
            i <= n,
            v@ == s@.subrange(0, i as int),
        decreases n - i,
    {
        let c = s.get_char(i);
        v.push(c);
        i = i + 1;
        assert(v@ =~= s@.subrange(0, i as int));
    }
    assert(v@ =~= s@);
    v
}

/// Appends every character of `cs` to `out`.
pub fn push_all(out: &mut String, cs: &Vec<char>)
    ensures
        final(out)@ == old(out)@ + cs@,
{
    let mut i: usize = 0;
    while i < cs.len()
        invariant
            i <= cs.len(),
            out@ == old(out)@ + cs@.subrange(0, i as int),
        decreases cs.len() - i,
    {
        push_char(out, cs[i]);
        i = i + 1;
        assert(out@ =~= old(out)@ + cs@.subrange(0, i as int));
    }
    assert(cs@.subrange(0, cs.len() as int) =~= cs@);
}

/// A `String` holding exactly the characters of `cs`.
pub fn string_of(cs: &Vec<char>) -> (s: String)
    ensures
        s@ == cs@,
{
    let mut s = String::new();
    push_all(&mut s, cs);
    assert(s@ =~= cs@);
    s
}

/// An owned copy of `s`.
pub fn owned(s: &str) -> (r: String)
    ensures
        r@ == s@,
{
    s.to_owned()
}


/// Unicode `White_Space` characters — the set that `str::trim` removes.
pub open spec fn is_ws(c: char) -> bool {
    let u = c as u32;
    ||| 0x09 <= u <= 0x0D
    ||| u == 0x20
    ||| u == 0x85
    ||| u == 0xA0
    ||| u == 0x1680
    ||| 0x2000 <= u <= 0x200A
    ||| u == 0x2028
    ||| u == 0x2029
    ||| u == 0x202F
    ||| u == 0x205F
    ||| u == 0x3000
}

/// `c.is_whitespace()`.
pub fn is_whitespace(c: char) -> (b: bool)
    ensures
        b == is_ws(c),
{
    let u = c as u32;
    (0x09 <= u && u <= 0x0D) || u == 0x20 || u == 0x85 || u == 0xA0 || u == 0x1680
        || (0x2000 <= u && u <= 0x200A) || u == 0x2028 || u == 0x2029 || u == 0x202F
        || u == 0x205F || u == 0x3000
}

/// Every character is white space: the text trims to nothing.
pub open spec fn is_blank(s: Seq<char>) -> bool {
    forall|i: int| 0 <= i < s.len() ==> is_ws(#[trigger] s[i])
}

/// `s` with leading white space removed.
pub open spec fn trim_start(s: Seq<char>) -> Seq<char>
    decreases s.len(),
{
    if s.len() > 0 && is_ws(s[0]) {
        trim_start(s.drop_first())
    } else {
        s
    }
}

/// `s` with trailing white space removed.
pub open spec fn trim_end(s: Seq<char>) -> Seq<char>
    decreases s.len(),
{
    if s.len() > 0 && is_ws(s.last()) {
        trim_end(s.drop_last())
    } else {
        s
    }
}

/// `str::trim`: both ends stripped of white space.
pub open spec fn trim(s: Seq<char>) -> Seq<char> {
    trim_end(trim_start(s))
}

/// `s.trim().is_empty()`.
pub fn blank(s: &str) -> (b: bool)
    ensures
        b == is_blank(s@),
{
    let cs = chars_of(s);
    let mut i: usize = 0;
    while i < cs.len()
        invariant
            i <= cs.len(),
            cs@ == s@,
            forall|k: int| 0 <= k < i ==> is_ws(#[trigger] s@[k]),
        decreases cs.len() - i,
    {
        if !is_whitespace(cs[i]) {
            return false;
        }
        i = i + 1;
    }
    true
}

proof fn lemma_trim_start_skip(s: Seq<char>, a: int)
    requires
        0 <= a < s.len(),
        is_ws(s[a]),
    ensures
        trim_start(s.subrange(a, s.len() as int)) == trim_start(s.subrange(a + 1, s.len() as int)),
{
    assert(s.subrange(a, s.len() as int).drop_first() =~= s.subrange(a + 1, s.len() as int));
}

proof fn lemma_trim_end_skip(s: Seq<char>, b: int)
    requires
        0 < b <= s.len(),
        is_ws(s[b - 1]),
    ensures
        trim_end(s.subrange(0, b)) == trim_end(s.subrange(0, b - 1)),
{
    assert(s.subrange(0, b).drop_last() =~= s.subrange(0, b - 1));
}

/// The characters of `s.trim()`.
pub fn trim_chars(s: &Vec<char>) -> (t: Vec<char>)
    ensures
        t@ == trim(s@),
{
    let n = s.len();
    let mut a: usize = 0;
    assert(s@.subrange(0, n as int) =~= s@);
    while a < n && is_whitespace(s[a])
        invariant
            n == s@.len(),
            a <= n,
            trim_start(s@) == trim_start(s@.subrange(a as int, n as int)),
        decreases n - a,
    {
        proof {
            lemma_trim_start_skip(s@, a as int);
        }
        a = a + 1;
    }
    let ghost mid = s@.subrange(a as int, n as int);
    assert(trim_start(s@) == mid);
    let mut b: usize = n;
    assert(mid.subrange(0, (b - a) as int) =~= mid);
    while b > a && is_whitespace(s[b - 1])
        invariant
            n == s@.len(),
            a <= b <= n,
            mid == s@.subrange(a as int, n as int),
            trim_end(mid) == trim_end(mid.subrange(0, (b - a) as int)),
        decreases b,
    {
        proof {
            assert(mid[(b - a) - 1] == s@[b - 1]);
            lemma_trim_end_skip(mid, (b - a) as int);
        }
        b = b - 1;
    }
    let mut t: Vec<char> = Vec::new();
    let mut k: usize = a;
    while k < b
        invariant
            n == s@.len(),
            a <= k <= b <= n,
            t@ == s@.subrange(a as int, k as int),
        decreases b - k,
    {
        t.push(s[k]);
        k = k + 1;
        assert(t@ =~= s@.subrange(a as int, k as int));
    }
    assert(mid.subrange(0, (b - a) as int) =~= s@.subrange(a as int, b as int));
    t
}

/// `s.trim_end()` as an owned string.
pub fn trimmed_end(s: &str) -> (t: String)
    ensures
        t@ == trim_end(s@),
{
    let cs = chars_of(s);
    let n = cs.len();
    let mut b: usize = n;
    assert(s@.subrange(0, n as int) =~= s@);
    while b > 0 && is_whitespace(cs[b - 1])
        invariant
            n == cs@.len(),
            cs@ == s@,
            b <= n,
            trim_end(s@) == trim_end(s@.subrange(0, b as int)),
        decreases b,
    {
        proof {
            lemma_trim_end_skip(s@, b as int);
        }
        b = b - 1;
    }
    let mut t: Vec<char> = Vec::new();
    let mut k: usize = 0;
    while k < b
        invariant
            n == cs@.len(),
            cs@ == s@,
            k <= b <= n,
            t@ == s@.subrange(0, k as int),
        decreases b - k,
    {
        t.push(cs[k]);
        k = k + 1;
        assert(t@ =~= s@.subrange(0, k as int));
    }
    string_of(&t)
}

/// `s.trim()` as an owned string.
pub fn trimmed(s: &str) -> (t: String)
    ensures
        t@ == trim(s@),
{
    let cs = chars_of(s);
    let t = trim_chars(&cs);
    string_of(&t)
}

/// `p` is a prefix of `s`.
pub open spec fn has_prefix(s: Seq<char>, p: Seq<char>) -> bool {
    p.len() <= s.len() && s.subrange(0, p.len() as int) == p
}

/// `s.starts_with(p)`.
pub fn starts_with(s: &Vec<char>, p: &Vec<char>) -> (b: bool)
    ensures
        b == has_prefix(s@, p@),
{
    if p.len() > s.len() {
        return false;
    }
    let mut i: usize = 0;
    while i < p.len()
        invariant
            p.len() <= s.len(),
            i <= p.len(),
            forall|k: int| 0 <= k < i ==> s@[k] == p@[k],
        decreases p.len() - i,
    {
        if s[i] != p[i] {
            assert(s@.subrange(0, p.len() as int)[i as int] != p@[i as int]);
            return false;
        }
        i = i + 1;
    }
    assert(s@.subrange(0, p.len() as int) =~= p@);
    true
}

/// `str::starts_with` on two string slices.
pub fn str_starts_with(s: &str, p: &str) -> (b: bool)
    ensures
        b == has_prefix(s@, p@),
{
    let sv = chars_of(s);
    let pv = chars_of(p);
    starts_with(&sv, &pv)
}

/// Character sequences equal.
pub fn chars_eq(a: &Vec<char>, b: &Vec<char>) -> (r: bool)
    ensures
        r == (a@ == b@),
{
    if a.len() != b.len() {
        return false;
    }
    let mut i: usize = 0;
    while i < a.len()
        invariant
            a.len() == b.len(),
            i <= a.len(),
            forall|k: int| 0 <= k < i ==> a@[k] == b@[k],
        decreases a.len() - i,
    {
        if a[i] != b[i] {
            return false;
        }
        i = i + 1;
    }
    assert(a@ =~= b@);
    true
}

/// `a == b` on string slices, by their characters.
pub fn str_eq(a: &str, b: &str) -> (r: bool)
    ensures
        r == (a@ == b@),
{
    let av = chars_of(a);
    let bv = chars_of(b);
    chars_eq(&av, &bv)
}

/// An ASCII decimal digit.
pub open spec fn is_digit(c: char) -> bool {
    '0' <= c && c <= '9'
}

/// The value of an ASCII decimal digit.
pub open spec fn digit_value(c: char) -> int {
    (c as int) - ('0' as int)
}

/// Every character is an ASCII decimal digit.
pub open spec fn all_digits(s: Seq<char>) -> bool {
    forall|i: int| 0 <= i < s.len() ==> is_digit(#[trigger] s[i])
}

/// The number written by a run of decimal digits (leading zeros allowed).
pub open spec fn digits_value(s: Seq<char>) -> int
    decreases s.len(),
{
    if s.len() == 0 {
        0
    } else {
        digits_value(s.drop_last()) * 10 + digit_value(s.last())
    }
}

/// `FromStr` for a primitive integer type whose range is `lo..=hi`:
/// an optional `+` (or, for signed types, `-`), then at least one ASCII
/// digit and nothing else; the value must lie in the range.
pub open spec fn parse_int(s: Seq<char>, signed: bool, lo: int, hi: int) -> Option<int> {
    let ds = unsigned_part(s, signed);
    if ds.len() == 0 || !all_digits(ds) {
        None
    } else {
        let v = if is_negative_literal(s, signed) { -digits_value(ds) } else { digits_value(ds) };
        if lo <= v && v <= hi { Some(v) } else { None }
    }
}

/// The literal starts with a minus sign that the type accepts.
pub open spec fn is_negative_literal(s: Seq<char>, signed: bool) -> bool {
    s.len() > 0 && signed && s[0] == '-'
}

/// The literal without its accepted sign character.
pub open spec fn unsigned_part(s: Seq<char>, signed: bool) -> Seq<char> {
    if is_negative_literal(s, signed) || (s.len() > 0 && s[0] == '+') {
        s.drop_first()
    } else {
        s
    }
}

pub(crate) proof fn lemma_digits_nonneg(s: Seq<char>)
    requires
        all_digits(s),
    ensures
        digits_value(s) >= 0,
    decreases s.len(),
{
    if s.len() > 0 {
        assert(all_digits(s.drop_last()));
        lemma_digits_nonneg(s.drop_last());
        assert(is_digit(s[s.len() - 1]));
    }
}

proof fn lemma_digits_prefix_le(s: Seq<char>, k: int)
    requires
        all_digits(s),
        0 <= k <= s.len(),
    ensures
        digits_value(s.subrange(0, k)) <= digits_value(s),
    decreases s.len() - k,
{
    if k < s.len() {
        lemma_digits_prefix_le(s, k + 1);
        let t = s.subrange(0, k + 1);
        assert(t.drop_last() =~= s.subrange(0, k));
        assert(all_digits(s.subrange(0, k)));
        lemma_digits_nonneg(s.subrange(0, k));
        assert(is_digit(t.last()));
    } else {
        assert(s.subrange(0, k) =~= s);
    }
}

/// Parses `cs[start..]` as `FromStr` does for an integer type with range
/// `lo..=hi` (signed or not).
#[verifier::rlimit(40)]
pub fn parse_int_chars(cs: &Vec<char>, signed: bool, lo: i128, hi: i128) -> (r: Option<i128>)
    requires
        -1_000_000_000_000_000_000_000_000i128 <= lo <= 0 <= hi <= 1_000_000_000_000_000_000_000_000i128,
    ensures
        r matches Some(v) ==> parse_int(cs@, signed, lo as int, hi as int) == Some(v as int),
        r is None ==> parse_int(cs@, signed, lo as int, hi as int) is None,
{
    let n = cs.len();
    if n == 0 {
        return None;
    }
    let neg = signed && cs[0] == '-';
    let plus = cs[0] == '+';
    let start: usize = if neg || plus { 1 } else { 0 };
    let ghost ds = unsigned_part(cs@, signed);
    assert(neg == is_negative_literal(cs@, signed));
    assert(ds =~= cs@.subrange(start as int, n as int));
    if start == n {
        return None;
    }
    let cap: i128 = 1_000_000_000_000_000_000_000_000i128;
    let mut acc: i128 = 0;
    let mut i: usize = start;
    while i < n
        invariant
            n == cs@.len(),
            start <= i <= n,
            ds == cs@.subrange(start as int, n as int),
            ds == unsigned_part(cs@, signed),
            neg == is_negative_literal(cs@, signed),
            -1_000_000_000_000_000_000_000_000i128 <= lo <= 0 <= hi <= 1_000_000_000_000_000_000_000_000i128,
            all_digits(cs@.subrange(start as int, i as int)),
            acc as int == digits_value(cs@.subrange(start as int, i as int)),
            0 <= acc <= cap,
            cap == 1_000_000_000_000_000_000_000_000i128,
        decreases n - i,
    {
        let c = cs[i];
        let ghost pre = cs@.subrange(start as int, i as int);
        let ghost nxt = cs@.subrange(start as int, i + 1);
        assert(nxt.drop_last() =~= pre);
        if !('0' <= c && c <= '9') {
            assert(ds[i - start] == cs@[i as int]);
            assert(!is_digit(ds[i - start]));
            assert(!all_digits(ds));
            return None;
        }
        let d = (c as u32 - '0' as u32) as i128;
        acc = acc * 10 + d;
        i = i + 1;
        assert(all_digits(nxt));
        if acc > cap {
            proof {
                if all_digits(ds) {
                    lemma_digits_prefix_le(ds, (i - start) as int);
                    assert(ds.subrange(0, (i - start) as int) =~= nxt);
                    assert(digits_value(ds) >= acc);
                    assert(ds.len() > 0);
                }
            }
            return None;
        }
    }
    assert(cs@.subrange(start as int, n as int) =~= ds);
    let v: i128 = if neg { -acc } else { acc };
    if lo <= v && v <= hi {
        Some(v)
    } else {
        None
    }
}

/// `str::parse::<i64>`.
pub fn parse_i64(s: &str) -> (r: Option<i64>)
    ensures
        r matches Some(v) ==> parse_int(s@, true, i64::MIN as int, i64::MAX as int) == Some(v as int),
        r is None ==> parse_int(s@, true, i64::MIN as int, i64::MAX as int) is None,
{
    let cs = chars_of(s);
    match parse_int_chars(&cs, true, i64::MIN as i128, i64::MAX as i128) {
        Some(v) => Some(v as i64),
        None => None,
    }
}

/// `str::parse::<i32>`.
pub fn parse_i32(s: &str) -> (r: Option<i32>)
    ensures
        r matches Some(v) ==> parse_int(s@, true, i32::MIN as int, i32::MAX as int) == Some(v as int),
        r is None ==> parse_int(s@, true, i32::MIN as int, i32::MAX as int) is None,
{
    let cs = chars_of(s);
    match parse_int_chars(&cs, true, i32::MIN as i128, i32::MAX as i128) {
        Some(v) => Some(v as i32),
        None => None,
    }
}

/// `str::parse::<u8>`.
pub fn parse_u8(s: &str) -> (r: Option<u8>)
    ensures
        r matches Some(v) ==> parse_int(s@, false, 0, 255) == Some(v as int),
        r is None ==> parse_int(s@, false, 0, 255) is None,
{
    let cs = chars_of(s);
    match parse_int_chars(&cs, false, 0, 255) {
        Some(v) => Some(v as u8),
        None => None,
    }
}

/// `str::parse::<usize>`.
pub fn parse_usize(s: &str) -> (r: Option<usize>)
    ensures
        r matches Some(v) ==> parse_int(s@, false, 0, usize::MAX as int) == Some(v as int),
        r is None ==> parse_int(s@, false, 0, usize::MAX as int) is None,
{
    let cs = chars_of(s);
    match parse_int_chars(&cs, false, 0, usize::MAX as i128) {
        Some(v) => Some(v as usize),
        None => None,
    }
}

/// The ASCII digit for `d` in `0..10`.
pub open spec fn digit_char(d: int) -> char {
    (d + 48) as char
}

/// Decimal digits of a natural number, most significant first, no padding.
pub open spec fn decimal(n: nat) -> Seq<char>
    decreases n,
{
    if n < 10 {
        seq![digit_char(n as int)]
    } else {
        decimal(n / 10).push(digit_char((n % 10) as int))
    }
}

/// `n.to_string()` for an integer.
pub open spec fn signed_decimal(n: int) -> Seq<char> {
    if n < 0 {
        seq!['-'] + decimal((-n) as nat)
    } else {
        decimal(n as nat)
    }
}

/// `k` zero characters (none when `k <= 0`).
pub open spec fn zeros(k: int) -> Seq<char> {
    Seq::new(if k > 0 { k as nat } else { 0 }, |i: int| '0')
}

/// `format!("{n:0w$}")`: sign first, then zeros up to width `w`, then digits.
pub open spec fn padded(n: int, w: int) -> Seq<char> {
    if n < 0 {
        let d = decimal((-n) as nat);
        seq!['-'] + zeros(w - 1 - d.len()) + d
    } else {
        let d = decimal(n as nat);
        zeros(w - d.len()) + d
    }
}

fn digit_to_char(d: u64) -> (c: char)
    requires
        d < 10,
    ensures
        c == digit_char(d as int),
{
    let c: char = match d {
        0 => '0',
        1 => '1',
        2 => '2',
        3 => '3',
        4 => '4',
        5 => '5',
        6 => '6',
        7 => '7',
        8 => '8',
        _ => '9',
    };
    c
}

/// Decimal digits of `n`.
pub fn decimal_chars(n: u64) -> (v: Vec<char>)
    ensures
        v@ == decimal(n as nat),
    decreases n,
{
    if n < 10 {
        let mut v = Vec::new();
        v.push(digit_to_char(n));
        assert(v@ =~= decimal(n as nat));
        v
    } else {
        let mut v = decimal_chars(n / 10);
        v.push(digit_to_char(n % 10));
        v
    }
}

/// `n.to_string()` as characters.
pub fn signed_decimal_chars(n: i64) -> (v: Vec<char>)
    ensures
        v@ == signed_decimal(n as int),
{
    if n < 0 {
        let m: u64 = if n == i64::MIN { 9_223_372_036_854_775_808u64 } else { (-n) as u64 };
        let d = decimal_chars(m);
        let mut v = Vec::new();
        v.push('-');
        let mut i: usize = 0;
        while i < d.len()
            invariant
                i <= d.len(),
                v@ == seq!['-'] + d@.subrange(0, i as int),
            decreases d.len() - i,
        {
            v.push(d[i]);
            i = i + 1;
            assert(v@ =~= seq!['-'] + d@.subrange(0, i as int));
        }
        assert(d@.subrange(0, d.len() as int) =~= d@);
        v
    } else {
        decimal_chars(n as u64)
    }
}

/// `format!("{n:0w$}")` as characters.
pub fn padded_chars(n: i64, w: usize) -> (v: Vec<char>)
    ensures
        v@ == padded(n as int, w as int),
{
    let neg = n < 0;
    let m: u64 = if n == i64::MIN {
        9_223_372_036_854_775_808u64
    } else if neg {
        (-n) as u64
    } else {
        n as u64
    };
    let d = decimal_chars(m);
    let mut v: Vec<char> = Vec::new();
    if neg {
        v.push('-');
    }
    let used: usize = d.len();
    let nz: usize = if neg {
        if w > used && w - used > 1 { w - used - 1 } else { 0 }
    } else {
        if w > used { w - used } else { 0 }
    };
    let ghost head = if neg { seq!['-'] } else { Seq::<char>::empty() };
    assert(v@ =~= head);
    let mut k: usize = 0;
    while k < nz
        invariant
            k <= nz,
            v@ == head + zeros(k as int),
        decreases nz - k,
    {
        v.push('0');
        k = k + 1;
        assert(v@ =~= head + zeros(k as int));
    }
    let mut i: usize = 0;
    while i < d.len()
        invariant
            i <= d.len(),
            v@ == head + zeros(nz as int) + d@.subrange(0, i as int),
        decreases d.len() - i,
    {
        v.push(d[i]);
        i = i + 1;
        assert(v@ =~= head + zeros(nz as int) + d@.subrange(0, i as int));
    }
    assert(d@.subrange(0, d.len() as int) =~= d@);
    if neg {
        assert(zeros(nz as int) =~= zeros(w - 1 - d@.len()));
        assert(v@ =~= seq!['-'] + zeros(w - 1 - d@.len()) + d@);
    } else {
        assert(zeros(nz as int) =~= zeros(w - d@.len()));
        assert(v@ =~= zeros(w - d@.len()) + d@);
    }
    v
}

/// `s.split(sep)`: the pieces between separators, empty pieces included.
pub open spec fn split_on(s: Seq<char>, sep: char) -> Seq<Seq<char>>
    decreases s.len(),
{
    if s.len() == 0 {
        seq![Seq::<char>::empty()]
    } else {
        let rest = split_on(s.drop_last(), sep);
        if s.last() == sep {
            rest.push(Seq::<char>::empty())
        } else {
            rest.update(rest.len() - 1, rest.last().push(s.last()))
        }
    }
}

proof fn lemma_split_nonempty(s: Seq<char>, sep: char)
    ensures
        split_on(s, sep).len() >= 1,
    decreases s.len(),
{
    if s.len() > 0 {
        lemma_split_nonempty(s.drop_last(), sep);
    }
}

/// `s.split(sep)` as a list of character vectors.
pub fn split_chars(s: &Vec<char>, sep: char) -> (parts: Vec<Vec<char>>)
    ensures
        parts@.len() == split_on(s@, sep).len(),
        forall|i: int| 0 <= i < parts@.len() ==> #[trigger] parts@[i]@ == split_on(s@, sep)[i],
{
    let mut parts: Vec<Vec<char>> = Vec::new();
    let mut cur: Vec<char> = Vec::new();
    let mut i: usize = 0;
    assert(s@.subrange(0, 0) =~= Seq::<char>::empty());
    while i < s.len()
        invariant
            i <= s.len(),
            parts@.len() + 1 == split_on(s@.subrange(0, i as int), sep).len(),
            forall|k: int| 0 <= k < parts@.len() ==> #[trigger] parts@[k]@ == split_on(s@.subrange(0, i as int), sep)[k],
            cur@ == split_on(s@.subrange(0, i as int), sep).last(),
        decreases s.len() - i,
    {
        let ghost pre = s@.subrange(0, i as int);
        let ghost nxt = s@.subrange(0, i + 1);
        assert(nxt.drop_last() =~= pre);
        assert(nxt.last() == s@[i as int]);
        proof {
            lemma_split_nonempty(pre, sep);
        }
        let c = s[i];
        if c == sep {
            let done = cur;
            parts.push(done);
            cur = Vec::new();
            assert(cur@ =~= split_on(nxt, sep).last());
        } else {
            cur.push(c);
        }
        i = i + 1;
    }
    assert(s@.subrange(0, s.len() as int) =~= s@);
    parts.push(cur);
    parts
}

} // verus!

verus! {

/// The digits of `decimal(n)` are digits, spell `n`, and have no leading zero.
pub(crate) proof fn lemma_decimal_digits(n: nat)
    ensures
        all_digits(decimal(n)),
        digits_value(decimal(n)) == n,
        decimal(n).len() >= 1,
        decimal(n).len() > 1 ==> decimal(n)[0] != '0',
        n < 10 ==> decimal(n).len() == 1,
        n >= 10 ==> decimal(n).len() > 1,
        10 <= n < 100 ==> decimal(n).len() == 2,
        100 <= n < 1000 ==> decimal(n).len() == 3,
    decreases n,
{
    if n < 10 {
        assert(decimal(n) =~= seq![digit_char(n as int)]);
        assert(digit_value(digit_char(n as int)) == n);
        assert(decimal(n).drop_last() =~= Seq::<char>::empty());
        assert(digits_value(decimal(n).drop_last()) == 0);
        assert(digits_value(decimal(n)) == digits_value(decimal(n).drop_last()) * 10 + digit_value(decimal(n).last()));
    } else {
        let m: nat = n / 10;
        let r: nat = n % 10;
        lemma_decimal_digits(m);
        let d = decimal(n);
        assert(d =~= decimal(m).push(digit_char(r as int)));
        assert(d.drop_last() =~= decimal(m));
        assert(d.last() == digit_char(r as int));
        assert(digit_value(digit_char(r as int)) == r);
        assert(n == m * 10 + r);
        assert(digits_value(d) == digits_value(d.drop_last()) * 10 + digit_value(d.last()));
        assert(d[0] == decimal(m)[0]);
        assert forall|i: int| 0 <= i < d.len() implies is_digit(#[trigger] d[i]) by {
            if i < d.len() - 1 {
                assert(d[i] == decimal(m)[i]);
            }
        }
        if m < 10 {
            assert(decimal(m) =~= seq![digit_char(m as int)]);
            assert(decimal(m)[0] != '0');
        }
    }
}

/// Splitting at a separator that `t` does not contain extends the last piece.
pub(crate) proof fn lemma_split_append(s: Seq<char>, t: Seq<char>, sep: char)
    requires
        forall|i: int| 0 <= i < t.len() ==> t[i] != sep,
    ensures
        split_on(s + t, sep) == split_on(s, sep).update(split_on(s, sep).len() - 1, split_on(s, sep).last() + t),
    decreases t.len(),
{
    lemma_split_nonempty(s, sep);
    if t.len() == 0 {
        assert(s + t =~= s);
        assert(split_on(s, sep).last() + t =~= split_on(s, sep).last());
        assert(split_on(s, sep).update(split_on(s, sep).len() - 1, split_on(s, sep).last())
            =~= split_on(s, sep));
    } else {
        let t0 = t.drop_last();
        lemma_split_append(s, t0, sep);
        assert((s + t).drop_last() =~= s + t0);
        assert((s + t).last() == t.last());
        lemma_split_nonempty(s + t0, sep);
        let r = split_on(s, sep);
        let rest = split_on(s + t0, sep);
        assert(t[t.len() - 1] != sep);
        assert(rest == r.update(r.len() - 1, r.last() + t0));
        assert(rest.len() == r.len());
        assert(rest.last() == r.last() + t0);
        assert(split_on(s + t, sep) == rest.update(rest.len() - 1, rest.last().push(t.last())));
        assert((r.last() + t0).push(t.last()) =~= r.last() + t);
        assert(split_on(s + t, sep) =~= r.update(r.len() - 1, r.last() + t));
    }
}

/// Splitting after a separator opens an empty piece.
pub(crate) proof fn lemma_split_sep(s: Seq<char>, sep: char)
    ensures
        split_on(s.push(sep), sep) == split_on(s, sep).push(Seq::empty()),
{
    assert(s.push(sep).drop_last() =~= s);
}

} // verus!

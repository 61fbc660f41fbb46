//! Building search input for SQLite: LIKE patterns with escaped wildcards,
//! FTS5 MATCH expressions, the cleaned free-text query and the bounds of the
//! autocomplete and list requests.

use vstd::prelude::*;
use crate::error::{AppError, is_validation, validation};
use crate::text::{chars_of, is_ws, is_whitespace, push_char, string_of, trim, trimmed};

verus! {

// ---------------------------------------------------------------------------
// LIKE escaping
// ---------------------------------------------------------------------------

/// A LIKE wildcard or the escape character itself.
pub open spec fn is_like_special(c: char) -> bool {
    c == '%' || c == '_' || c == '\\'
}

/// One character as it appears in an escaped LIKE pattern.
pub open spec fn escape_char(c: char) -> Seq<char> {
    if is_like_special(c) { seq!['\\', c] } else { seq![c] }
}

/// `s` with `%`, `_` and `\` each preceded by `\` (for `LIKE ... ESCAPE '\'`).
pub open spec fn escape_like_spec(s: Seq<char>) -> Seq<char>
    decreases s.len(),
{
    if s.len() == 0 {
        Seq::empty()
    } else {
        escape_like_spec(s.drop_last()) + escape_char(s.last())
    }
}

/// Escapes `%`, `_` and `\` with `\`, so that user text inside a LIKE
/// pattern with `ESCAPE '\'` matches only literally.
pub fn escape_like(s: &str) -> (r: String)
    ensures
        r@ == escape_like_spec(s@),
{
    let cs = chars_of(s);
    let mut out = String::new();
    let mut i: usize = 0;
    while i < cs.len()
        invariant
            cs@ == s@,
            i <= cs.len(),
            out@ == escape_like_spec(s@.subrange(0, i as int)),
        decreases cs.len() - i,
    {
        let c = cs[i];
        assert(s@.subrange(0, i + 1).drop_last() =~= s@.subrange(0, i as int));
        if c == '%' || c == '_' || c == '\\' {
            push_char(&mut out, '\\');
        }
        push_char(&mut out, c);
        assert(out@ =~= escape_like_spec(s@.subrange(0, i + 1)));
        i = i + 1;
    }
    assert(s@.subrange(0, cs.len() as int) =~= s@);
    out
}

/// What a LIKE pattern with `ESCAPE '\'` matches when it holds no wildcard:
/// the text it stands for, with each escape removed; `None` when the
/// pattern holds a bare `%` or `_`, or ends in a lone `\`.
pub open spec fn like_literal(p: Seq<char>) -> Option<Seq<char>>
    decreases p.len(),
{
    if p.len() == 0 {
        Some(Seq::empty())
    } else if p[0] == '\\' {
        if p.len() < 2 {
            None
        } else {
            match like_literal(p.subrange(2, p.len() as int)) {
                Some(rest) => Some(seq![p[1]] + rest),
                None => None,
            }
        }
    } else if p[0] == '%' || p[0] == '_' {
        None
    } else {
        match like_literal(p.drop_first()) {
            Some(rest) => Some(seq![p[0]] + rest),
            None => None,
        }
    }
}

proof fn lemma_escape_append(a: Seq<char>, b: Seq<char>)
    ensures
        escape_like_spec(a + b) == escape_like_spec(a) + escape_like_spec(b),
    decreases b.len(),
{
    if b.len() == 0 {
        assert(a + b =~= a);
        assert(escape_like_spec(a) + escape_like_spec(b) =~= escape_like_spec(a));
    } else {
        lemma_escape_append(a, b.drop_last());
        assert((a + b).drop_last() =~= a + b.drop_last());
        assert((a + b).last() == b.last());
    }
}

/// An escaped prefix is matched literally: read back with the LIKE escape
/// rule, `escape_like(s)` holds no wildcard and stands for exactly `s`.
pub proof fn escape_like_is_literal(s: Seq<char>)
    ensures
        like_literal(escape_like_spec(s)) == Some(s),
    decreases s.len(),
{
    if s.len() == 0 {
        assert(escape_like_spec(s) =~= Seq::<char>::empty());
    } else {
        let c = s[0];
        let rest = s.drop_first();
        assert(s =~= seq![c] + rest);
        lemma_escape_append(seq![c], rest);
        assert(seq![c].drop_last() =~= Seq::<char>::empty());
        assert(seq![c].last() == c);
        assert(escape_like_spec(Seq::<char>::empty()) =~= Seq::<char>::empty());
        assert(escape_like_spec(seq![c]) == escape_like_spec(seq![c].drop_last()) + escape_char(seq![c].last()));
        assert(escape_like_spec(seq![c]) =~= escape_char(c));
        escape_like_is_literal(rest);
        let p = escape_like_spec(s);
        if is_like_special(c) {
            assert(p =~= seq!['\\', c] + escape_like_spec(rest));
            assert(p.subrange(2, p.len() as int) =~= escape_like_spec(rest));
        } else {
            assert(p =~= seq![c] + escape_like_spec(rest));
            assert(p.drop_first() =~= escape_like_spec(rest));
        }
    }
}

// ---------------------------------------------------------------------------
// FTS5 query
// ---------------------------------------------------------------------------

/// The state of `str::split_whitespace` after reading `s`: the finished
/// tokens and the token being read.
pub open spec fn split_ws_state(s: Seq<char>) -> (Seq<Seq<char>>, Seq<char>)
    decreases s.len(),
{
    if s.len() == 0 {
        (Seq::empty(), Seq::empty())
    } else {
        let st = split_ws_state(s.drop_last());
        let c = s.last();
        if is_ws(c) {
            if st.1.len() > 0 { (st.0.push(st.1), Seq::empty()) } else { (st.0, Seq::empty()) }
        } else {
            (st.0, st.1.push(c))
        }
    }
}

/// `s.split_whitespace()`: the maximal runs of non-white-space characters.
pub open spec fn split_ws(s: Seq<char>) -> Seq<Seq<char>> {
    let st = split_ws_state(s);
    if st.1.len() > 0 { st.0.push(st.1) } else { st.0 }
}

/// `s.split_whitespace()` as character vectors.
pub fn split_whitespace_chars(s: &Vec<char>) -> (ts: Vec<Vec<char>>)
    ensures
        ts@.map_values(|t: Vec<char>| t@) == split_ws(s@),
{
    let mut ts: Vec<Vec<char>> = Vec::new();
    let mut cur: Vec<char> = Vec::new();
    let mut i: usize = 0;
    while i < s.len()
        invariant
            i <= s.len(),
            (ts@.map_values(|t: Vec<char>| t@), cur@) == split_ws_state(s@.subrange(0, i as int)),
        decreases s.len() - i,
    {
        let c = s[i];
        assert(s@.subrange(0, i + 1).drop_last() =~= s@.subrange(0, i as int));
        let ghost pre = ts@.map_values(|t: Vec<char>| t@);
        if is_whitespace(c) {
            if cur.len() > 0 {
                let done = cur;
                let ghost dv = done@;
                ts.push(done);
                cur = Vec::new();
                assert(ts@.map_values(|t: Vec<char>| t@) =~= pre.push(dv));
            } else {
                cur = Vec::new();
            }
        } else {
            cur.push(c);
        }
        assert(cur@ =~= split_ws_state(s@.subrange(0, i + 1)).1);
        i = i + 1;
    }
    assert(s@.subrange(0, s.len() as int) =~= s@);
    if cur.len() > 0 {
        let ghost pre = ts@.map_values(|t: Vec<char>| t@);
        let ghost cv = cur@;
        ts.push(cur);
        assert(ts@.map_values(|t: Vec<char>| t@) =~= pre.push(cv));
    }
    ts
}

/// A token's text inside an FTS5 string: NUL bytes dropped, `"` doubled.
pub open spec fn fts_body(t: Seq<char>) -> Seq<char>
    decreases t.len(),
{
    if t.len() == 0 {
        Seq::empty()
    } else {
        let c = t.last();
        fts_body(t.drop_last()) + (if c == '\0' {
            Seq::empty()
        } else if c == '"' {
            seq!['"', '"']
        } else {
            seq![c]
        })
    }
}

/// A token as an FTS5 prefix query: `"body"*`.
pub open spec fn fts_token(t: Seq<char>) -> Seq<char> {
    seq!['"'] + fts_body(t) + seq!['"', '*']
}

/// The tokens that survive (a non-empty body), quoted and joined by spaces.
pub open spec fn fts_join(ts: Seq<Seq<char>>) -> Seq<char>
    decreases ts.len(),
{
    if ts.len() == 0 {
        Seq::empty()
    } else {
        let prev = fts_join(ts.drop_last());
        let t = ts.last();
        if fts_body(t).len() == 0 {
            prev
        } else if prev.len() == 0 {
            fts_token(t)
        } else {
            prev + seq![' '] + fts_token(t)
        }
    }
}

/// The FTS5 MATCH expression for free text.
pub open spec fn fts_query(s: Seq<char>) -> Seq<char> {
    fts_join(split_ws(s))
}

/// A token has text once its NUL bytes are dropped.
pub open spec fn has_text(t: Seq<char>) -> bool {
    exists|i: int| 0 <= i < t.len() && t[i] != '\0'
}

/// Terms separated by single spaces.
pub open spec fn space_join(ws: Seq<Seq<char>>) -> Seq<char>
    decreases ws.len(),
{
    if ws.len() == 0 {
        Seq::empty()
    } else if ws.len() == 1 {
        ws[0]
    } else {
        space_join(ws.drop_last()) + seq![' '] + ws.last()
    }
}

proof fn lemma_fts_body_empty(t: Seq<char>)
    ensures
        fts_body(t).len() > 0 <==> has_text(t),
    decreases t.len(),
{
    if t.len() > 0 {
        let p = t.drop_last();
        lemma_fts_body_empty(p);
        if has_text(p) {
            let i = choose|i: int| 0 <= i < p.len() && p[i] != '\0';
            assert(t[i] == p[i]);
        }
        if has_text(t) && !has_text(p) {
            let i = choose|i: int| 0 <= i < t.len() && t[i] != '\0';
            if i < p.len() {
                assert(p[i] == t[i]);
            }
        }
        if t.last() != '\0' {
            assert(t[t.len() - 1] != '\0');
        }
    }
}

proof fn lemma_space_join_len(ws: Seq<Seq<char>>)
    requires
        ws.len() > 0,
    ensures
        space_join(ws).len() >= ws.last().len(),
    decreases ws.len(),
{
}

proof fn lemma_fts_join_terms(ts: Seq<Seq<char>>)
    ensures
        fts_join(ts) == space_join(ts.filter(|t: Seq<char>| has_text(t)).map_values(|t: Seq<char>| fts_token(t))),
    decreases ts.len(),
{
    reveal(Seq::filter);
    let pred = |t: Seq<char>| has_text(t);
    if ts.len() > 0 {
        let p = ts.drop_last();
        let t = ts.last();
        lemma_fts_join_terms(p);
        lemma_fts_body_empty(t);
        let fp = p.filter(pred);
        let mp = fp.map_values(|x: Seq<char>| fts_token(x));
        assert(ts.filter(pred) == (if pred(t) { fp.push(t) } else { fp }));
        if has_text(t) {
            let m = fp.push(t).map_values(|x: Seq<char>| fts_token(x));
            assert(m =~= mp.push(fts_token(t)));
            assert(m.drop_last() =~= mp);
            if mp.len() > 0 {
                lemma_space_join_len(mp);
                assert(mp.last() == fts_token(fp.last()));
            }
        }
    }
}

/// Every white-space separated token that has text once its NUL bytes are
/// dropped becomes one quoted prefix term `"token"*` of the query, whatever
/// its length; the terms keep the order of the tokens and are separated by
/// single spaces, and tokens without text leave nothing.
pub proof fn fts_query_quotes_every_token(s: Seq<char>)
    ensures
        fts_query(s) == space_join(
            split_ws(s).filter(|t: Seq<char>| has_text(t)).map_values(|t: Seq<char>| fts_token(t)),
        ),
{
    lemma_fts_join_terms(split_ws(s));
}

fn fts_body_chars(t: &Vec<char>) -> (b: Vec<char>)
    ensures
        b@ == fts_body(t@),
{
    let mut b: Vec<char> = Vec::new();
    let mut i: usize = 0;
    while i < t.len()
        invariant
            i <= t.len(),
            b@ == fts_body(t@.subrange(0, i as int)),
        decreases t.len() - i,
    {
        let c = t[i];
        assert(t@.subrange(0, i + 1).drop_last() =~= t@.subrange(0, i as int));
        if c == '\0' {
        } else if c == '"' {
            b.push('"');
            b.push('"');
        } else {
            b.push(c);
        }
        assert(b@ =~= fts_body(t@.subrange(0, i + 1)));
        i = i + 1;
    }
    assert(t@.subrange(0, t.len() as int) =~= t@);
    b
}

/// Turns free text into an FTS5 MATCH expression: each white-space separated
/// token, with NUL bytes removed and `"` doubled, becomes the prefix query
/// `"token"*`; tokens left empty are skipped; the rest are joined by spaces.
pub fn build_fts_query(user_input: &str) -> (r: String)
    ensures
        r@ == fts_query(user_input@),
        r@ == space_join(
            split_ws(user_input@).filter(|t: Seq<char>| has_text(t)).map_values(|t: Seq<char>| fts_token(t)),
        ),
{
    proof {
        fts_query_quotes_every_token(user_input@);
    }
    let cs = chars_of(user_input);
    let ts = split_whitespace_chars(&cs);
    let ghost tv = ts@.map_values(|t: Vec<char>| t@);
    let mut out: Vec<char> = Vec::new();
    let mut k: usize = 0;
    while k < ts.len()
        invariant
            tv == ts@.map_values(|t: Vec<char>| t@),
            k <= ts.len(),
            out@ == fts_join(tv.subrange(0, k as int)),
        decreases ts.len() - k,
    {
        assert(tv.subrange(0, k + 1).drop_last() =~= tv.subrange(0, k as int));
        assert(tv.subrange(0, k + 1).last() == ts@[k as int]@);
        let body = fts_body_chars(&ts[k]);
        if body.len() > 0 {
            let ghost pre = out@;
            if out.len() > 0 {
                out.push(' ');
            }
            out.push('"');
            let mut j: usize = 0;
            let ghost mid = out@;
            while j < body.len()
                invariant
                    j <= body.len(),
                    out@ == mid + body@.subrange(0, j as int),
                decreases body.len() - j,
            {
                out.push(body[j]);
                j = j + 1;
                assert(out@ =~= mid + body@.subrange(0, j as int));
            }
            out.push('"');
            out.push('*');
            assert(body@.subrange(0, body.len() as int) =~= body@);
            proof {
                if pre.len() > 0 {
                    assert(out@ =~= pre + seq![' '] + fts_token(ts@[k as int]@));
                } else {
                    assert(out@ =~= fts_token(ts@[k as int]@));
                }
            }
        }
        k = k + 1;
    }
    assert(tv.subrange(0, ts.len() as int) =~= tv);
    string_of(&out)
}

// ---------------------------------------------------------------------------
// Free-text search and request bounds
// ---------------------------------------------------------------------------

/// `%` and `_` replaced by spaces.
pub open spec fn blank_wildcards(s: Seq<char>) -> Seq<char> {
    s.map_values(|c: char| if c == '%' || c == '_' { ' ' } else { c })
}

/// The two forms of a free-text act search.
pub struct SearchTerms {
    /// `%text%` for the LIKE arm.
    pub plain: String,
    /// The FTS5 MATCH expression.
    pub fts: String,
}

/// The search input for a query: `None` when the query is blank (the
/// caller lists instead); otherwise, with the query trimmed and `%`/`_`
/// turned into spaces, the LIKE pattern `%…%` of the trimmed result and the
/// FTS5 expression of it.
pub fn search_terms(query: &str) -> (r: Option<SearchTerms>)
    ensures
        trim(query@).len() == 0 ==> r is None,
        trim(query@).len() != 0 ==> (r matches Some(t)
            && t.plain@ == seq!['%'] + trim(blank_wildcards(trim(query@))) + seq!['%']
            && t.fts@ == fts_query(blank_wildcards(trim(query@)))),
{
    let t = trimmed(query);
    let tc = chars_of(t.as_str());
    if tc.len() == 0 {
        return None;
    }
    let mut cleaned: Vec<char> = Vec::new();
    let mut i: usize = 0;
    while i < tc.len()
        invariant
            i <= tc.len(),
            cleaned@ == blank_wildcards(tc@.subrange(0, i as int)),
        decreases tc.len() - i,
    {
        let c = tc[i];
        if c == '%' || c == '_' {
            cleaned.push(' ');
        } else {
            cleaned.push(c);
        }
        assert(cleaned@ =~= blank_wildcards(tc@.subrange(0, i + 1)));
        i = i + 1;
    }
    assert(tc@.subrange(0, tc.len() as int) =~= tc@);
    let cleaned_s = string_of(&cleaned);
    let inner = trimmed(cleaned_s.as_str());
    let mut plain = String::new();
    plain.append("%");
    plain.append(inner.as_str());
    plain.append("%");
    proof {
        reveal_strlit("%");
    }
    assert(plain@ =~= seq!['%'] + trim(blank_wildcards(trim(query@))) + seq!['%']);
    let fts = build_fts_query(cleaned_s.as_str());
    Some(SearchTerms { plain, fts })
}

/// Largest page of a list request.
pub const MAX_PAGE_LIMIT: u64 = 200;

/// A list request may ask for at most 200 rows.
pub fn check_page_limit(limit: u64) -> (r: Result<(), AppError>)
    ensures
        limit <= MAX_PAGE_LIMIT ==> r is Ok,
        limit > MAX_PAGE_LIMIT ==> (r matches Err(e) && is_validation(e, "pagination.limit"@, "Максимум 200 элементов на страницу"@)),
{
    if limit > MAX_PAGE_LIMIT {
        return Err(validation("pagination.limit", "Максимум 200 элементов на страницу"));
    }
    Ok(())
}

/// Which name column an autocomplete reads.
#[derive(Clone, Copy, Debug, PartialEq, Eq)]
pub enum SuggestPersonField {
    Giver,
    Receiver,
}

/// The act column of an autocomplete; only the giver side also reads the
/// "given by" names of cartridge operations.
pub fn suggest_column(field: SuggestPersonField) -> (r: (&'static str, bool))
    ensures
        field == SuggestPersonField::Giver ==> r.0@ == "giver_name"@ && r.1,
        field == SuggestPersonField::Receiver ==> r.0@ == "receiver_name"@ && !r.1,
{
    match field {
        SuggestPersonField::Giver => ("giver_name", true),
        SuggestPersonField::Receiver => ("receiver_name", false),
    }
}

/// The LIKE pattern and row limit of a person autocomplete: a prefix of at
/// most 100 characters, escaped and followed by `%`; the limit clamped to
/// `1..=20`.
pub fn suggest_params(prefix: &str, limit: usize) -> (r: Result<(String, i64), AppError>)
    ensures
        prefix@.len() > 100 ==> (r matches Err(e) && is_validation(e, "prefix"@, "prefix слишком длинный (макс. 100 символов)"@)),
        prefix@.len() <= 100 ==> (r matches Ok((p, l))
            && p@ == escape_like_spec(prefix@) + seq!['%']
            && l == (if limit < 1 { 1 } else if limit > 20 { 20 } else { limit as int })),
{
    if prefix.unicode_len() > 100 {
        return Err(validation("prefix", "prefix слишком длинный (макс. 100 символов)"));
    }
    let bounded: i64 = if limit < 1 { 1 } else if limit > 20 { 20 } else { limit as i64 };
    let mut pattern = escape_like(prefix);
    push_char(&mut pattern, '%');
    Ok((pattern, bounded))
}

} // verus!

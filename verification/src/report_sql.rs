//! The SQL of the report queries: the filter of each report as a list of
//! WHERE clauses with numbered parameters, the recursive CTEs that place
//! filters need, and the statement text around them.

use vstd::prelude::*;
use crate::reports::{
    category_clause, category_filter_clause, category_parts, join_with, request_status_label, request_type_label,
    translate_request_status, translate_request_type, ReportRow,
};
use crate::text::{decimal, decimal_chars, push_all, signed_decimal, signed_decimal_chars, string_of, trim_end, trimmed_end};

verus! {

/// A value bound to a numbered SQL parameter.
#[derive(Clone, Debug, PartialEq, Eq)]
pub enum SqlValue {
    Int(i64),
    Text(String),
}

/// A bound value as a plain value.
pub enum BoundValue {
    Int(i64),
    Text(Seq<char>),
}

impl View for SqlValue {
    type V = BoundValue;

    open spec fn view(&self) -> BoundValue {
        match self {
            SqlValue::Int(i) => BoundValue::Int(*i),
            SqlValue::Text(s) => BoundValue::Text(s@),
        }
    }
}

/// The filter part of a query as plain values: the `WITH` prefix (empty or
/// ending in a space), the WHERE clauses in order, and the parameters in
/// binding order (`?1` is the first).
pub struct QueryShape {
    pub prefix: Seq<char>,
    pub clauses: Seq<Seq<char>>,
    pub params: Seq<BoundValue>,
}

/// The filter part of a query being built.
pub struct QueryParts {
    pub with_prefix: String,
    pub clauses: Vec<String>,
    pub params: Vec<SqlValue>,
}

impl QueryParts {
    /// The parts as plain values.
    pub open spec fn shape(&self) -> QueryShape {
        QueryShape {
            prefix: self.with_prefix@,
            clauses: self.clauses@.map_values(|c: String| c@),
            params: self.params@.map_values(|v: SqlValue| v@),
        }
    }
}

/// No prefix, no clause, no parameter.
pub open spec fn empty_shape() -> QueryShape {
    QueryShape { prefix: Seq::empty(), clauses: Seq::empty(), params: Seq::empty() }
}

/// The placeholder the next parameter of `q` gets.
pub open spec fn next_placeholder(q: QueryShape) -> Seq<char> {
    "?"@ + decimal(q.params.len() + 1)
}

/// `q` with one more clause that binds nothing.
pub open spec fn with_plain(q: QueryShape, c: Seq<char>) -> QueryShape {
    QueryShape { prefix: q.prefix, clauses: q.clauses.push(c), params: q.params }
}

/// `q` with the clause `before ?N after`, `?N` being `v`'s new parameter.
pub open spec fn with_bound(q: QueryShape, before: Seq<char>, v: BoundValue, after: Seq<char>) -> QueryShape {
    QueryShape {
        prefix: q.prefix,
        clauses: q.clauses.push(before + next_placeholder(q) + after),
        params: q.params.push(v),
    }
}

/// `q` with `before ?N` for an optional integer; unchanged without one.
pub open spec fn with_opt_int(q: QueryShape, v: Option<i64>, before: Seq<char>) -> QueryShape {
    match v {
        Some(i) => with_bound(q, before, BoundValue::Int(i), Seq::empty()),
        None => q,
    }
}

/// The prefix with one more recursive CTE: the first one opens `WITH
/// RECURSIVE`, a later one follows the trimmed prefix after a comma.
pub open spec fn prefix_with_cte(prefix: Seq<char>, cte: Seq<char>) -> Seq<char> {
    if prefix.len() == 0 {
        "WITH RECURSIVE "@ + cte
    } else {
        trim_end(prefix) + ", "@ + cte
    }
}

/// The CTE of a place and every live place below it, the place bound as
/// parameter `idx`.
pub open spec fn subtree_cte(idx: nat) -> Seq<char> {
    SUBTREE_CTE_HEAD@ + decimal(idx) + SUBTREE_CTE_TAIL@
}

/// `q` restricted to the subtree of `place_id` through column `col`.
pub open spec fn with_place_subtree(q: QueryShape, col: Seq<char>, place_id: i64) -> QueryShape {
    QueryShape {
        prefix: prefix_with_cte(q.prefix, subtree_cte(q.params.len() + 1)),
        clauses: q.clauses.push(col + " IN (SELECT id FROM subtree)"@),
        params: q.params.push(BoundValue::Int(place_id)),
    }
}

/// The clause of the storage filter on column `col`.
pub open spec fn storage_clause(col: Seq<char>, want: bool) -> Seq<char> {
    if want {
        col + " IN (SELECT id FROM storage_ids)"@
    } else {
        "("@ + col + " IS NULL OR "@ + col + " NOT IN (SELECT id FROM storage_ids))"@
    }
}

/// `q` restricted to places inside (or outside) a storage place, through
/// column `col`.
pub open spec fn with_storage(q: QueryShape, col: Seq<char>, want: bool) -> QueryShape {
    QueryShape {
        prefix: prefix_with_cte(q.prefix, STORAGE_CTE@),
        clauses: q.clauses.push(storage_clause(col, want)),
        params: q.params,
    }
}

/// `q` with the act search clause: number, giver or receiver contains `s`
/// (one parameter, `%s%`, used three times).
pub open spec fn with_act_search(q: QueryShape, s: Seq<char>) -> QueryShape {
    let ph = next_placeholder(q);
    QueryShape {
        prefix: q.prefix,
        clauses: q.clauses.push(
            "(a.number LIKE "@ + ph + " OR a.giver_name LIKE "@ + ph + " OR a.receiver_name LIKE "@ + ph + ")"@,
        ),
        params: q.params.push(BoundValue::Text("%"@ + s + "%"@)),
    }
}

/// The placeholders `?n+1`, `?n+2`, ... of `k` parameters.
pub open spec fn placeholders(n: nat, k: nat) -> Seq<Seq<char>> {
    Seq::new(k, |i: int| "?"@ + decimal((n + i + 1) as nat))
}

/// `q` with `col IN (?a, ?b, ...)`, one parameter per value, in order.
pub open spec fn with_in_list(q: QueryShape, col: Seq<char>, vals: Seq<Seq<char>>) -> QueryShape {
    QueryShape {
        prefix: q.prefix,
        clauses: q.clauses.push(col + " IN ("@ + join_with(placeholders(q.params.len(), vals.len()), ", "@) + ")"@),
        params: q.params + vals.map_values(|v: Seq<char>| BoundValue::Text(v)),
    }
}

/// `q` with an optional text compared to column `before`.
pub open spec fn with_opt_text(q: QueryShape, v: Option<String>, before: Seq<char>) -> QueryShape {
    match v {
        Some(t) => with_bound(q, before, BoundValue::Text(t@), Seq::empty()),
        None => q,
    }
}

/// `q` restricted to the subtree of an optional place.
pub open spec fn with_opt_place(q: QueryShape, col: Seq<char>, place_id: Option<i64>) -> QueryShape {
    match place_id {
        Some(p) => with_place_subtree(q, col, p),
        None => q,
    }
}

/// `q` with an optional storage filter.
pub open spec fn with_opt_storage(q: QueryShape, col: Seq<char>, want: Option<bool>) -> QueryShape {
    match want {
        Some(w) => with_storage(q, col, w),
        None => q,
    }
}

/// The status clause of a snapshot: the chosen status, or the status named
/// `default_name` in `table`.
pub open spec fn with_snapshot_status(
    q: QueryShape,
    col: Seq<char>,
    table: Seq<char>,
    status_id: Option<i64>,
    default_name: Seq<char>,
) -> QueryShape {
    match status_id {
        Some(id) => with_bound(q, col + " = "@, BoundValue::Int(id), Seq::empty()),
        None => with_bound(
            q,
            col + " = (SELECT id FROM "@ + table + " WHERE name = "@,
            BoundValue::Text(default_name),
            " LIMIT 1)"@,
        ),
    }
}

/// The start of the subtree CTE, up to its parameter.
pub const SUBTREE_CTE_HEAD: &'static str = "subtree(id) AS ( SELECT id FROM places WHERE id = ?";

/// The rest of the subtree CTE, after its parameter.
pub const SUBTREE_CTE_TAIL: &'static str = " AND deleted_at_utc IS NULL UNION ALL SELECT p.id FROM places p JOIN subtree s ON p.parent_id = s.id WHERE p.deleted_at_utc IS NULL ) ";

/// The CTE of the storage places and every live place below them.
pub const STORAGE_CTE: &'static str = "storage_ids(id) AS ( SELECT id FROM places WHERE is_storage = 1 AND deleted_at_utc IS NULL UNION ALL SELECT p.id FROM places p JOIN storage_ids s ON p.parent_id = s.id WHERE p.deleted_at_utc IS NULL ) ";

impl QueryParts {
    /// No prefix, no clause, no parameter.
    pub fn new() -> (q: QueryParts)
        ensures
            q.shape() == empty_shape(),
            q.params@.len() == 0,
    {
        let q = QueryParts { with_prefix: String::new(), clauses: Vec::new(), params: Vec::new() };
        assert(q.shape().clauses =~= Seq::<Seq<char>>::empty());
        assert(q.shape().params =~= Seq::<BoundValue>::empty());
        q
    }

    /// The placeholder of the next parameter.
    fn placeholder(&self) -> (s: String)
        requires
            self.params@.len() < usize::MAX,
        ensures
            s@ == next_placeholder(self.shape()),
    {
        let mut s = String::new();
        s.append("?");
        let n: usize = self.params.len() + 1;
        push_all(&mut s, &decimal_chars(n as u64));
        s
    }

    /// Adds a clause that binds nothing.
    pub fn push_plain(&mut self, c: &str)
        ensures
            final(self).shape() == with_plain(old(self).shape(), c@),
            final(self).params@.len() == old(self).params@.len(),
    {
        let ghost cv = self.clauses@.map_values(|x: String| x@);
        self.clauses.push(c.to_owned());
        assert(self.clauses@.map_values(|x: String| x@) =~= cv.push(c@));
    }

    fn push_clause(&mut self, c: String)
        ensures
            final(self).shape() == with_plain(old(self).shape(), c@),
            final(self).params == old(self).params,
            final(self).with_prefix == old(self).with_prefix,
    {
        let ghost cv = self.clauses@.map_values(|x: String| x@);
        let ghost c0 = c@;
        self.clauses.push(c);
        assert(self.clauses@.map_values(|x: String| x@) =~= cv.push(c0));
    }

    fn push_param(&mut self, v: SqlValue)
        ensures
            final(self).with_prefix == old(self).with_prefix,
            final(self).clauses == old(self).clauses,
            final(self).params@.map_values(|x: SqlValue| x@) == old(self).params@.map_values(|x: SqlValue| x@).push(v@),
            final(self).params@.len() == old(self).params@.len() + 1,
    {
        let ghost pv = self.params@.map_values(|x: SqlValue| x@);
        let ghost v0 = v@;
        self.params.push(v);
        assert(self.params@.map_values(|x: SqlValue| x@) =~= pv.push(v0));
    }

    /// Adds the clause `before ?N after` and binds `v` as parameter `N`.
    pub fn push_bound(&mut self, before: &str, v: SqlValue, after: &str)
        requires
            old(self).params@.len() < usize::MAX,
        ensures
            final(self).shape() == with_bound(old(self).shape(), before@, v@, after@),
            final(self).params@.len() <= old(self).params@.len() + 1,
    {
        let mut c = String::new();
        c.append(before);
        let p = self.placeholder();
        c.append(p.as_str());
        c.append(after);
        self.push_clause(c);
        self.push_param(v);
    }

    /// Adds `before ?N` for an optional integer; nothing without one.
    pub fn push_opt_int(&mut self, v: Option<i64>, before: &str)
        requires
            old(self).params@.len() < usize::MAX,
        ensures
            final(self).shape() == with_opt_int(old(self).shape(), v, before@),
            final(self).params@.len() <= old(self).params@.len() + 1,
    {
        match v {
            Some(i) => self.push_bound(before, SqlValue::Int(i), ""),
            None => {},
        }
        proof {
            reveal_strlit("");
        }
    }

    fn add_cte(&mut self, cte: &str)
        ensures
            final(self).with_prefix@ == prefix_with_cte(old(self).with_prefix@, cte@),
            final(self).clauses == old(self).clauses,
            final(self).params == old(self).params,
    {
        if self.with_prefix.unicode_len() == 0 {
            let mut p = String::new();
            p.append("WITH RECURSIVE ");
            p.append(cte);
            self.with_prefix = p;
        } else {
            let mut p = trimmed_end(self.with_prefix.as_str());
            p.append(", ");
            p.append(cte);
            self.with_prefix = p;
        }
    }

    /// Restricts the query to the subtree of `place_id` through column `col`.
    pub fn push_place_subtree(&mut self, col: &str, place_id: i64)
        requires
            old(self).params@.len() < usize::MAX,
        ensures
            final(self).shape() == with_place_subtree(old(self).shape(), col@, place_id),
            final(self).params@.len() <= old(self).params@.len() + 1,
    {
        let mut cte = String::new();
        cte.append(SUBTREE_CTE_HEAD);
        let n: usize = self.params.len() + 1;
        push_all(&mut cte, &decimal_chars(n as u64));
        cte.append(SUBTREE_CTE_TAIL);
        self.push_param(SqlValue::Int(place_id));
        self.add_cte(cte.as_str());
        let mut c = String::new();
        c.append(col);
        c.append(" IN (SELECT id FROM subtree)");
        self.push_clause(c);
    }

    /// Restricts the query to places inside (`want`) or outside a storage
    /// place, through column `col`.
    pub fn push_storage(&mut self, col: &str, want: bool)
        ensures
            final(self).shape() == with_storage(old(self).shape(), col@, want),
            final(self).params@.len() == old(self).params@.len(),
    {
        self.add_cte(STORAGE_CTE);
        let mut c = String::new();
        if want {
            c.append(col);
            c.append(" IN (SELECT id FROM storage_ids)");
        } else {
            c.append("(");
            c.append(col);
            c.append(" IS NULL OR ");
            c.append(col);
            c.append(" NOT IN (SELECT id FROM storage_ids))");
        }
        self.push_clause(c);
    }
    /// Adds the act search clause for `text`.
    pub fn push_act_search(&mut self, text: &str)
        requires
            old(self).params@.len() < usize::MAX,
        ensures
            final(self).shape() == with_act_search(old(self).shape(), text@),
            final(self).params@.len() <= old(self).params@.len() + 1,
    {
        let p = self.placeholder();
        let mut c = String::new();
        c.append("(a.number LIKE ");
        c.append(p.as_str());
        c.append(" OR a.giver_name LIKE ");
        c.append(p.as_str());
        c.append(" OR a.receiver_name LIKE ");
        c.append(p.as_str());
        c.append(")");
        let mut like = String::new();
        like.append("%");
        like.append(text);
        like.append("%");
        self.push_clause(c);
        self.push_param(SqlValue::Text(like));
    }

    /// Adds `col IN (?a, ?b, ...)` and binds each value, in order.
    pub fn push_in_list(&mut self, col: &str, vals: &Vec<String>)
        requires
            old(self).params@.len() + vals@.len() < usize::MAX,
        ensures
            final(self).shape() == with_in_list(old(self).shape(), col@, vals@.map_values(|v: String| v@)),
            final(self).params@.len() == old(self).params@.len() + vals@.len(),
    {
        let ghost q0 = self.shape();
        let ghost vv = vals@.map_values(|v: String| v@);
        let n0: usize = self.params.len();
        let mut list = String::new();
        let mut i: usize = 0;
        while i < vals.len()
            invariant
                q0 == old(self).shape(),
                vv == vals@.map_values(|v: String| v@),
                n0 == q0.params.len(),
                n0 + vals@.len() < usize::MAX,
                i <= vals.len(),
                self.with_prefix == old(self).with_prefix,
                self.clauses == old(self).clauses,
                self.shape().params == q0.params + vv.subrange(0, i as int).map_values(|v: Seq<char>| BoundValue::Text(v)),
                list@ == join_with(placeholders(n0 as nat, i as nat), ", "@),
            decreases vals.len() - i,
        {
            let ghost before = list@;
            if i > 0 {
                list.append(", ");
            }
            list.append("?");
            let k: usize = n0 + i + 1;
            push_all(&mut list, &decimal_chars(k as u64));
            proof {
                let ph = placeholders(n0 as nat, (i + 1) as nat);
                assert(ph.drop_last() =~= placeholders(n0 as nat, i as nat));
                assert(ph.last() == "?"@ + decimal(k as nat));
                if i == 0 {
                    assert(list@ =~= join_with(ph, ", "@));
                } else {
                    assert(list@ =~= join_with(ph, ", "@));
                }
            }
            let ghost pre = self.shape().params;
            self.push_param(SqlValue::Text(vals[i].clone()));
            proof {
                assert(vv.subrange(0, i + 1) =~= vv.subrange(0, i as int).push(vv[i as int]));
                assert(vv.subrange(0, i + 1).map_values(|v: Seq<char>| BoundValue::Text(v))
                    =~= vv.subrange(0, i as int).map_values(|v: Seq<char>| BoundValue::Text(v)).push(BoundValue::Text(vv[i as int])));
                assert(self.shape().params =~= q0.params + vv.subrange(0, i + 1).map_values(|v: Seq<char>| BoundValue::Text(v)));
            }
            i = i + 1;
        }
        assert(vv.subrange(0, vals.len() as int) =~= vv);
        let mut c = String::new();
        c.append(col);
        c.append(" IN (");
        c.append(list.as_str());
        c.append(")");
        self.push_clause(c);
    }

    /// Adds `before ?N` for an optional text; nothing without one.
    pub fn push_opt_text(&mut self, v: &Option<String>, before: &str)
        requires
            old(self).params@.len() < usize::MAX,
        ensures
            final(self).shape() == with_opt_text(old(self).shape(), *v, before@),
            final(self).params@.len() <= old(self).params@.len() + 1,
    {
        match v {
            Some(t) => self.push_bound(before, SqlValue::Text(t.clone()), ""),
            None => {},
        }
        proof {
            reveal_strlit("");
        }
    }

    /// Restricts the query to the subtree of an optional place.
    pub fn push_opt_place(&mut self, col: &str, place_id: Option<i64>)
        requires
            old(self).params@.len() < usize::MAX,
        ensures
            final(self).shape() == with_opt_place(old(self).shape(), col@, place_id),
            final(self).params@.len() <= old(self).params@.len() + 1,
    {
        match place_id {
            Some(p) => self.push_place_subtree(col, p),
            None => {},
        }
    }

    /// Adds an optional storage filter.
    pub fn push_opt_storage(&mut self, col: &str, want: Option<bool>)
        ensures
            final(self).shape() == with_opt_storage(old(self).shape(), col@, want),
            final(self).params@.len() == old(self).params@.len(),
    {
        match want {
            Some(w) => self.push_storage(col, w),
            None => {},
        }
    }

    /// Adds the status clause of a snapshot.
    pub fn push_snapshot_status(&mut self, col: &str, table: &str, status_id: Option<i64>, default_name: &str)
        requires
            old(self).params@.len() < usize::MAX,
        ensures
            final(self).shape() == with_snapshot_status(old(self).shape(), col@, table@, status_id, default_name@),
            final(self).params@.len() <= old(self).params@.len() + 1,
    {
        match status_id {
            Some(id) => {
                let mut before = String::new();
                before.append(col);
                before.append(" = ");
                self.push_bound(before.as_str(), SqlValue::Int(id), "");
            },
            None => {
                let mut before = String::new();
                before.append(col);
                before.append(" = (SELECT id FROM ");
                before.append(table);
                before.append(" WHERE name = ");
                self.push_bound(before.as_str(), SqlValue::Text(default_name.to_owned()), " LIMIT 1)");
            },
        }
        proof {
            reveal_strlit("");
        }
    }
}

} // verus!

verus! {

/// The filter of a report, as the UI sends it; each field that is set
/// narrows the report.
#[derive(Clone, Debug, PartialEq, Eq)]
pub struct ReportFilter {
    pub place_id: Option<i64>,
    pub type_id: Option<i64>,
    pub status_id: Option<i64>,
    pub model_id: Option<i64>,
    pub color: Option<String>,
    pub search: Option<String>,
    pub is_storage: Option<bool>,
    pub request_category_filter: Option<Vec<String>>,
}

/// The filter of an act report: the act type, live acts, the handover
/// period, the place subtree, the device type, the search text, storage.
pub open spec fn acts_shape(f: ReportFilter, from: Option<i64>, to: Option<i64>, act_type: Seq<char>) -> QueryShape {
    let q0 = with_bound(empty_shape(), "a.act_type = "@, BoundValue::Text(act_type), Seq::empty());
    let q1 = with_plain(q0, "a.deleted_at_utc IS NULL"@);
    let q2 = with_opt_int(q1, from, "a.handover_date_utc >= "@);
    let q3 = with_opt_int(q2, to, "a.handover_date_utc <= "@);
    let q4 = with_opt_place(q3, "a.place_id"@, f.place_id);
    let q5 = with_opt_int(q4, f.type_id, "d.type_id = "@);
    let q6 = match f.search {
        Some(s) => with_act_search(q5, s@),
        None => q5,
    };
    with_opt_storage(q6, "a.place_id"@, f.is_storage)
}

/// Builds the filter of an act report (listing and count alike).
pub fn acts_filter(filter: &ReportFilter, ts_from: Option<i64>, ts_to: Option<i64>, act_type: &str) -> (q: QueryParts)
    ensures
        q.shape() == acts_shape(*filter, ts_from, ts_to, act_type@),
{
    let mut q = QueryParts::new();
    q.push_bound("a.act_type = ", SqlValue::Text(act_type.to_owned()), "");
    q.push_plain("a.deleted_at_utc IS NULL");
    q.push_opt_int(ts_from, "a.handover_date_utc >= ");
    q.push_opt_int(ts_to, "a.handover_date_utc <= ");
    q.push_opt_place("a.place_id", filter.place_id);
    q.push_opt_int(filter.type_id, "d.type_id = ");
    match &filter.search {
        Some(s) => q.push_act_search(s.as_str()),
        None => {},
    }
    q.push_opt_storage("a.place_id", filter.is_storage);
    proof {
        reveal_strlit("");
    }
    q
}

/// The filter of a device snapshot: live devices, the chosen status (or the
/// status named `default_status`), the place subtree, the type, storage.
pub open spec fn device_snapshot_shape(f: ReportFilter, default_status: Seq<char>) -> QueryShape {
    let q0 = with_plain(empty_shape(), "d.deleted_at_utc IS NULL"@);
    let q1 = with_snapshot_status(q0, "d.status_id"@, "device_statuses"@, f.status_id, default_status);
    let q2 = with_opt_place(q1, "d.place_id"@, f.place_id);
    let q3 = with_opt_int(q2, f.type_id, "d.type_id = "@);
    with_opt_storage(q3, "d.place_id"@, f.is_storage)
}

/// Builds the filter of a device snapshot (listing and count alike).
pub fn device_snapshot_filter(filter: &ReportFilter, default_status: &str) -> (q: QueryParts)
    ensures
        q.shape() == device_snapshot_shape(*filter, default_status@),
{
    let mut q = QueryParts::new();
    q.push_plain("d.deleted_at_utc IS NULL");
    q.push_snapshot_status("d.status_id", "device_statuses", filter.status_id, default_status);
    q.push_opt_place("d.place_id", filter.place_id);
    q.push_opt_int(filter.type_id, "d.type_id = ");
    q.push_opt_storage("d.place_id", filter.is_storage);
    q
}

/// The filter of a cartridge audit report: cartridge entries with one of
/// `actions`, the period, the model, the colour, the status, the place
/// subtree, and the storage filter `storage`.
pub open spec fn cartridge_audit_shape(
    f: ReportFilter,
    from: Option<i64>,
    to: Option<i64>,
    actions: Seq<Seq<char>>,
    storage: Option<bool>,
) -> QueryShape {
    let q0 = with_plain(empty_shape(), "al.entity_type = 'cartridge'"@);
    let q1 = with_in_list(q0, "al.action"@, actions);
    let q2 = with_opt_int(q1, from, "al.created_at_utc >= "@);
    let q3 = with_opt_int(q2, to, "al.created_at_utc <= "@);
    let q4 = with_opt_int(q3, f.model_id, "m.id = "@);
    let q5 = with_opt_text(q4, f.color, "m.color = "@);
    let q6 = with_opt_int(q5, f.status_id, "c.status_id = "@);
    let q7 = with_opt_place(q6, "c.place_id"@, f.place_id);
    with_opt_storage(q7, "c.place_id"@, storage)
}

/// Builds the filter of a cartridge audit report. The listing applies the
/// filter's storage choice; the count passes `None`.
pub fn cartridge_audit_filter(
    filter: &ReportFilter,
    ts_from: Option<i64>,
    ts_to: Option<i64>,
    actions: &Vec<String>,
    storage: Option<bool>,
) -> (q: QueryParts)
    requires
        actions@.len() + 8 < usize::MAX,
    ensures
        q.shape() == cartridge_audit_shape(*filter, ts_from, ts_to, actions@.map_values(|a: String| a@), storage),
{
    let mut q = QueryParts::new();
    q.push_plain("al.entity_type = 'cartridge'");
    q.push_in_list("al.action", actions);
    q.push_opt_int(ts_from, "al.created_at_utc >= ");
    q.push_opt_int(ts_to, "al.created_at_utc <= ");
    q.push_opt_int(filter.model_id, "m.id = ");
    q.push_opt_text(&filter.color, "m.color = ");
    q.push_opt_int(filter.status_id, "c.status_id = ");
    q.push_opt_place("c.place_id", filter.place_id);
    q.push_opt_storage("c.place_id", storage);
    q
}

/// The filter of a cartridge snapshot: live cartridges, the chosen status
/// (or the status named `default_status`), the model, the colour, the
/// place subtree, and the storage filter `storage`.
pub open spec fn cartridge_snapshot_shape(f: ReportFilter, default_status: Seq<char>, storage: Option<bool>) -> QueryShape {
    let q0 = with_plain(empty_shape(), "c.deleted_at_utc IS NULL"@);
    let q1 = with_snapshot_status(q0, "c.status_id"@, "cartridge_statuses"@, f.status_id, default_status);
    let q2 = with_opt_int(q1, f.model_id, "m.id = "@);
    let q3 = with_opt_text(q2, f.color, "m.color = "@);
    let q4 = with_opt_place(q3, "c.place_id"@, f.place_id);
    with_opt_storage(q4, "c.place_id"@, storage)
}

/// Builds the filter of a cartridge snapshot. The listing applies the
/// filter's storage choice; the count passes `None`.
pub fn cartridge_snapshot_filter(filter: &ReportFilter, default_status: &str, storage: Option<bool>) -> (q: QueryParts)
    ensures
        q.shape() == cartridge_snapshot_shape(*filter, default_status@, storage),
{
    let mut q = QueryParts::new();
    q.push_plain("c.deleted_at_utc IS NULL");
    q.push_snapshot_status("c.status_id", "cartridge_statuses", filter.status_id, default_status);
    q.push_opt_int(filter.model_id, "m.id = ");
    q.push_opt_text(&filter.color, "m.color = ");
    q.push_opt_place("c.place_id", filter.place_id);
    q.push_opt_storage("c.place_id", storage);
    q
}

/// The category names a request-category selection binds, after `n`
/// parameters.
pub open spec fn category_names(keys: Option<Seq<Seq<char>>>, n: nat) -> Seq<Seq<char>> {
    match keys {
        Some(ks) => category_parts(ks, n).1,
        None => Seq::empty(),
    }
}

/// `q` with the request-category clause of `keys`, when there is one, and
/// the category names it binds.
pub open spec fn with_categories(q: QueryShape, keys: Option<Seq<Seq<char>>>) -> QueryShape {
    match category_clause(keys, q.params.len()) {
        Some(c) => QueryShape {
            prefix: q.prefix,
            clauses: q.clauses.push(c),
            params: q.params + category_names(keys, q.params.len()).map_values(|v: Seq<char>| BoundValue::Text(v)),
        },
        None => q,
    }
}

/// The filter of a request report: live requests, the status, the
/// exclusion predicate, the categories, the period, the printer's place
/// subtree, and the storage filter `storage`.
pub open spec fn requests_shape(
    from: Option<i64>,
    to: Option<i64>,
    status: Option<Seq<char>>,
    exclusion: Option<Seq<char>>,
    categories: Option<Seq<Seq<char>>>,
    storage: Option<bool>,
    place_id: Option<i64>,
) -> QueryShape {
    let q0 = with_plain(empty_shape(), "r.deleted_at_utc IS NULL"@);
    let q1 = match status {
        Some(st) => with_bound(q0, "r.status = "@, BoundValue::Text(st), Seq::empty()),
        None => q0,
    };
    let q2 = match exclusion {
        Some(e) => with_plain(q1, e),
        None => q1,
    };
    let q3 = with_categories(q2, categories);
    let q4 = with_opt_int(q3, from, "r.created_at_utc >= "@);
    let q5 = with_opt_int(q4, to, "r.created_at_utc <= "@);
    let q6 = with_opt_place(q5, "d.place_id"@, place_id);
    with_opt_storage(q6, "d.place_id"@, storage)
}

/// The view of an optional text.
pub open spec fn opt_str(o: Option<&str>) -> Option<Seq<char>> {
    match o {
        Some(s) => Some(s@),
        None => None,
    }
}

/// The texts of an optional list.
pub open spec fn opt_list(o: Option<&Vec<String>>) -> Option<Seq<Seq<char>>> {
    match o {
        Some(v) => Some(v@.map_values(|s: String| s@)),
        None => None,
    }
}

impl QueryParts {
    /// Adds the request-category clause of `keys`, if any, and binds the
    /// category names it refers to.
    pub fn push_categories(&mut self, keys: Option<&Vec<String>>)
        requires
            old(self).params@.len() + 4 * (match keys { Some(k) => k@.len() as int, None => 0 }) < usize::MAX,
        ensures
            final(self).shape() == with_categories(old(self).shape(), opt_list(keys)),
            final(self).params@.len() <= old(self).params@.len() + (match keys { Some(k) => k@.len() as int, None => 0 }),
    {
        let ghost q0 = self.shape();
        let (clause, names) = category_filter_clause(keys, self.params.len());
        let ghost nv = names@.map_values(|x: String| x@);
        proof {
            lemma_category_names_len(opt_list(keys), q0.params.len());
        }
        match clause {
            Some(c) => {
                self.push_clause(c);
                let mut i: usize = 0;
                while i < names.len()
                    invariant
                        nv == names@.map_values(|x: String| x@),
                        nv == category_names(opt_list(keys), q0.params.len()),
                        i <= names.len(),
                        nv.len() <= (match keys { Some(k) => k@.len() as int, None => 0 }),
                        old(self).params@.len() + 4 * (match keys { Some(k) => k@.len() as int, None => 0 }) < usize::MAX,
                        q0 == old(self).shape(),
                        self.with_prefix@ == q0.prefix,
                        self.shape().clauses == q0.clauses.push(c@),
                        self.shape().params == q0.params + nv.subrange(0, i as int).map_values(|v: Seq<char>| BoundValue::Text(v)),
                    decreases names.len() - i,
                {
                    self.push_param(SqlValue::Text(names[i].clone()));
                    proof {
                        assert(nv.subrange(0, i + 1).map_values(|v: Seq<char>| BoundValue::Text(v))
                            =~= nv.subrange(0, i as int).map_values(|v: Seq<char>| BoundValue::Text(v)).push(BoundValue::Text(nv[i as int])));
                        assert(self.shape().params =~= q0.params + nv.subrange(0, i + 1).map_values(|v: Seq<char>| BoundValue::Text(v)));
                    }
                    i = i + 1;
                }
                assert(nv.subrange(0, names.len() as int) =~= nv);
            },
            None => {},
        }
    }
}

proof fn lemma_category_parts_len(keys: Seq<Seq<char>>, n: nat)
    ensures
        category_parts(keys, n).1.len() <= keys.len(),
    decreases keys.len(),
{
    if keys.len() > 0 {
        lemma_category_parts_len(keys.drop_last(), n);
    }
}

proof fn lemma_category_names_len(keys: Option<Seq<Seq<char>>>, n: nat)
    ensures
        category_names(keys, n).len() <= (match keys { Some(k) => k.len() as int, None => 0 }),
{
    match keys {
        Some(k) => lemma_category_parts_len(k, n),
        None => {},
    }
}

/// Builds the filter of a request report. `exclusion` is the predicate that
/// hides AD registration requests, when they are to be hidden. The listing
/// applies the filter's storage choice; the count passes `None`.
pub fn requests_filter(
    ts_from: Option<i64>,
    ts_to: Option<i64>,
    status: Option<&str>,
    exclusion: Option<&str>,
    categories: Option<&Vec<String>>,
    storage: Option<bool>,
    place_id: Option<i64>,
) -> (q: QueryParts)
    requires
        4 * (match categories { Some(k) => k@.len() as int, None => 0 }) + 8 < usize::MAX,
    ensures
        q.shape() == requests_shape(ts_from, ts_to, opt_str(status), opt_str(exclusion), opt_list(categories), storage, place_id),
{
    let mut q = QueryParts::new();
    q.push_plain("r.deleted_at_utc IS NULL");
    match status {
        Some(st) => q.push_bound("r.status = ", SqlValue::Text(st.to_owned()), ""),
        None => {},
    }
    match exclusion {
        Some(e) => q.push_plain(e),
        None => {},
    }
    q.push_categories(categories);
    q.push_opt_int(ts_from, "r.created_at_utc >= ");
    q.push_opt_int(ts_to, "r.created_at_utc <= ");
    q.push_opt_place("d.place_id", place_id);
    q.push_opt_storage("d.place_id", storage);
    proof {
        reveal_strlit("");
    }
    q
}

/// A statement: the CTE prefix, `head`, the WHERE clauses joined with
/// ` AND `, then `tail`.
pub open spec fn statement(q: QueryShape, head: Seq<char>, tail: Seq<char>) -> Seq<char> {
    q.prefix + head + join_with(q.clauses, " AND "@) + tail
}

/// Builds the statement of a query from its filter parts.
pub fn assemble(parts: &QueryParts, head: &str, tail: &str) -> (s: String)
    ensures
        s@ == statement(parts.shape(), head@, tail@),
{
    let ghost cv = parts.clauses@.map_values(|c: String| c@);
    let mut w = String::new();
    let mut j: usize = 0;
    while j < parts.clauses.len()
        invariant
            cv == parts.clauses@.map_values(|c: String| c@),
            j <= parts.clauses.len(),
            w@ == join_with(cv.subrange(0, j as int), " AND "@),
        decreases parts.clauses.len() - j,
    {
        if j > 0 {
            w.append(" AND ");
        }
        w.append(parts.clauses[j].as_str());
        proof {
            let sub = cv.subrange(0, j + 1);
            assert(sub.drop_last() =~= cv.subrange(0, j as int));
            if j == 0 {
                assert(join_with(cv.subrange(0, 0), " AND "@) == Seq::<char>::empty());
                assert(w@ =~= join_with(sub, " AND "@));
            } else {
                assert(w@ =~= join_with(sub, " AND "@));
            }
        }
        j = j + 1;
    }
    assert(cv.subrange(0, parts.clauses.len() as int) =~= cv);
    let mut s = String::new();
    s.append(parts.with_prefix.as_str());
    s.append(head);
    s.append(w.as_str());
    s.append(tail);
    s
}

/// The act listing, up to its WHERE clauses.
pub const ACTS_LIST_HEAD: &'static str = "SELECT a.id, strftime('%Y-%m', datetime(a.handover_date_utc, 'unixepoch', '+3 hours')) AS month_key, CAST(a.number AS TEXT) as number, CAST(a.sub_number AS TEXT) as sub_number, a.giver_name, a.receiver_name, a.handover_date_utc, pfp.full_path AS place_path, a.act_type, GROUP_CONCAT(d.name, ', ') AS device_name, SUM(ai.quantity) AS quantity FROM acts a LEFT JOIN place_full_paths pfp ON pfp.place_id = a.place_id LEFT JOIN act_items ai ON ai.act_id = a.id LEFT JOIN devices d ON d.id = ai.device_id WHERE ";

/// The act listing after its WHERE clauses: one row per act, oldest first.
pub const ACTS_LIST_TAIL: &'static str = " GROUP BY a.id ORDER BY a.handover_date_utc ASC, a.id ASC LIMIT 1000";

/// The act count, up to its WHERE clauses.
pub const ACTS_COUNT_HEAD: &'static str = "SELECT COUNT(DISTINCT a.id) FROM acts a LEFT JOIN act_items ai ON ai.act_id = a.id LEFT JOIN devices d ON d.id = ai.device_id WHERE ";

/// The device snapshot listing, up to its WHERE clauses.
pub const DEVICES_LIST_HEAD: &'static str = "SELECT d.id, NULL as month_key, d.name as device_name, d.serial_number, pfp.full_path as place_path, s.name as status_name FROM devices d LEFT JOIN place_full_paths pfp ON pfp.place_id = d.place_id LEFT JOIN device_statuses s ON d.status_id = s.id WHERE ";

/// The device snapshot listing after its WHERE clauses.
pub const DEVICES_LIST_TAIL: &'static str = " ORDER BY d.name ASC, d.id ASC LIMIT 1000";

/// The device snapshot count, up to its WHERE clauses.
pub const DEVICES_COUNT_HEAD: &'static str = "SELECT COUNT(*) FROM devices d LEFT JOIN device_statuses s ON d.status_id = s.id WHERE ";

/// The cartridge audit listing, up to its WHERE clauses.
pub const CARTRIDGE_AUDIT_LIST_HEAD: &'static str = "SELECT c.id, strftime('%Y-%m', datetime(al.created_at_utc, 'unixepoch', '+3 hours')) AS month_key, al.created_at_utc as handover_date_utc, pfp.full_path as place_path, m.brand || ' ' || m.model AS model_label, c.code, al.action FROM audit_log al JOIN cartridges c ON c.id = al.entity_id JOIN cartridge_models m ON m.id = c.model_id LEFT JOIN place_full_paths pfp ON pfp.place_id = c.place_id WHERE ";

/// The cartridge audit listing after its WHERE clauses.
pub const CARTRIDGE_AUDIT_LIST_TAIL: &'static str = " ORDER BY al.created_at_utc ASC LIMIT 1000";

/// The cartridge audit count, up to its WHERE clauses.
pub const CARTRIDGE_AUDIT_COUNT_HEAD: &'static str = "SELECT COUNT(*) FROM audit_log al JOIN cartridges c ON c.id = al.entity_id JOIN cartridge_models m ON m.id = c.model_id WHERE ";

/// The cartridge snapshot listing, up to its WHERE clauses.
pub const CARTRIDGES_LIST_HEAD: &'static str = "SELECT c.id, c.code, m.brand || ' ' || m.model AS model_label, pfp.full_path as place_path, cs.name as status_name FROM cartridges c JOIN cartridge_models m ON m.id = c.model_id LEFT JOIN place_full_paths pfp ON pfp.place_id = c.place_id LEFT JOIN cartridge_statuses cs ON cs.id = c.status_id WHERE ";

/// The cartridge snapshot listing after its WHERE clauses.
pub const CARTRIDGES_LIST_TAIL: &'static str = " ORDER BY c.code ASC, c.id ASC LIMIT 1000";

/// The cartridge snapshot count, up to its WHERE clauses.
pub const CARTRIDGES_COUNT_HEAD: &'static str = "SELECT COUNT(*) FROM cartridges c JOIN cartridge_models m ON m.id = c.model_id LEFT JOIN cartridge_statuses cs ON cs.id = c.status_id WHERE ";

/// The request listing, up to its WHERE clauses.
pub const REQUESTS_LIST_HEAD: &'static str = "SELECT r.id, strftime('%Y-%m', datetime(r.created_at_utc, 'unixepoch', '+3 hours')) AS month_key, r.created_at_utc, r.request_type, r.status, u.full_name AS requester_name, d.name AS printer_name, pfp.full_path AS printer_place FROM requests r LEFT JOIN users u ON u.id = r.requested_by_user_id LEFT JOIN devices d ON d.id = r.printer_device_id LEFT JOIN place_full_paths pfp ON pfp.place_id = d.place_id WHERE ";

/// The request listing after its WHERE clauses.
pub const REQUESTS_LIST_TAIL: &'static str = " ORDER BY r.created_at_utc ASC, r.id ASC LIMIT 1000";

/// The request count, up to its WHERE clauses.
pub const REQUESTS_COUNT_HEAD: &'static str = "SELECT COUNT(*) FROM requests r LEFT JOIN devices d ON d.id = r.printer_device_id WHERE ";

/// The row of a request report: the request's number is its id, the
/// requester stands in the giver column, the printer and its place in the
/// device and place columns, status and type translated.
pub fn request_report_row(
    id: i64,
    month_key: Option<String>,
    created_at_utc: Option<i64>,
    request_type: &str,
    status: &str,
    requester_name: Option<String>,
    printer_name: Option<String>,
    printer_place: Option<String>,
) -> (row: ReportRow)
    ensures
        row.id == id,
        row.month_key == month_key,
        row.number matches Some(n) && n@ == signed_decimal(id as int),
        row.sub_number is None,
        row.giver_name == requester_name,
        row.receiver_name is None,
        row.handover_date_utc == created_at_utc,
        row.place_path == printer_place,
        row.act_type is None,
        row.device_name == printer_name,
        row.quantity is None,
        row.code is None,
        row.model_label is None,
        row.status_name matches Some(s) && s@ == request_status_label(status@),
        row.request_type_label matches Some(t) && t@ == request_type_label(request_type@),
{
    ReportRow {
        id,
        month_key,
        number: Some(string_of(&signed_decimal_chars(id))),
        sub_number: None,
        giver_name: requester_name,
        receiver_name: None,
        handover_date_utc: created_at_utc,
        place_path: printer_place,
        act_type: None,
        device_name: printer_name,
        quantity: None,
        code: None,
        model_label: None,
        status_name: Some(translate_request_status(status)),
        request_type_label: Some(translate_request_type(request_type)),
    }
}

/// A report filtered by place and by storage at once keeps both recursive
/// CTEs: the place subtree first, then the storage places, the first one's
/// trailing space dropped before the comma.
pub proof fn place_and_storage_keep_both_ctes(q: QueryShape, col: Seq<char>, place_id: i64, want: bool)
    requires
        q.prefix.len() == 0,
    ensures
        with_storage(with_place_subtree(q, col, place_id), col, want).prefix
            == "WITH RECURSIVE "@ + subtree_cte(q.params.len() + 1).drop_last() + ", "@ + STORAGE_CTE@,
{
    reveal_strlit(" AND deleted_at_utc IS NULL UNION ALL SELECT p.id FROM places p JOIN subtree s ON p.parent_id = s.id WHERE p.deleted_at_utc IS NULL ) ");
    reveal_strlit("WITH RECURSIVE ");
    let cte = subtree_cte(q.params.len() + 1);
    let p = "WITH RECURSIVE "@ + cte;
    let tail = SUBTREE_CTE_TAIL@;
    assert(cte.last() == tail.last());
    assert(cte.drop_last().last() == tail[tail.len() - 2]);
    assert(p.last() == ' ');
    assert(p.drop_last().last() == ')');
    assert(p.drop_last() =~= "WITH RECURSIVE "@ + cte.drop_last());
    assert(trim_end(p.drop_last()) == p.drop_last());
    assert(trim_end(p) == p.drop_last());
}

} // verus!

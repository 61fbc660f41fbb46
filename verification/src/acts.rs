//! Handover and return acts: payload validation, the item-set delta of an
//! edit, the per-device return rules, the guards every mutation runs before
//! it writes, and the order in which a deletion undoes device changes.

use vstd::prelude::*;
use crate::error::{AppError, is_validation, validation, validation_owned};
use crate::text::{blank, decimal, decimal_chars, is_blank, owned, push_all, signed_decimal, signed_decimal_chars};

verus! {

// ---------------------------------------------------------------------------
// Small helpers
// ---------------------------------------------------------------------------

/// `v` contains `x`.
pub fn contains_i64(v: &Vec<i64>, x: i64) -> (b: bool)
    ensures
        b == v@.contains(x),
{
    let mut i: usize = 0;
    while i < v.len()
        invariant
            i <= v.len(),
            forall|k: int| 0 <= k < i ==> v@[k] != x,
        decreases v.len() - i,
    {
        if v[i] == x {
            assert(v@[i as int] == x);
            return true;
        }
        i = i + 1;
    }
    false
}

/// The field name `items[i].name` of the i-th payload item.
pub open spec fn item_field(i: int, name: Seq<char>) -> Seq<char> {
    "items["@ + decimal(i as nat) + "]."@ + name
}

/// Builds `items[i].name`.
pub fn item_field_text(i: usize, name: &str) -> (s: String)
    ensures
        s@ == item_field(i as int, name@),
{
    let mut s = String::new();
    s.append("items[");
    push_all(&mut s, &decimal_chars(i as u64));
    s.append("].");
    s.append(name);
    s
}

/// The devices an item stands for: its `device_ids` when given, else its
/// single `device_id`.
pub open spec fn item_ids(device_id: i64, device_ids: Seq<i64>) -> Seq<i64> {
    if device_ids.len() == 0 {
        seq![device_id]
    } else {
        device_ids
    }
}

/// The devices an item stands for (never empty).
pub fn effective_ids(device_id: i64, device_ids: &Vec<i64>) -> (v: Vec<i64>)
    ensures
        v@ == item_ids(device_id, device_ids@),
        v@.len() >= 1,
{
    if device_ids.len() == 0 {
        let mut v = Vec::new();
        v.push(device_id);
        assert(v@ =~= seq![device_id]);
        v
    } else {
        device_ids.clone()
    }
}

/// The first element of `ids` already in `seen` or seen earlier in `ids`.
pub open spec fn first_dup(ids: Seq<i64>, seen: Set<i64>) -> Option<i64>
    decreases ids.len(),
{
    if ids.len() == 0 {
        None
    } else if seen.contains(ids[0]) {
        Some(ids[0])
    } else {
        first_dup(ids.drop_first(), seen.insert(ids[0]))
    }
}

/// `seen` with every element of `ids` added.
pub open spec fn seen_after(ids: Seq<i64>, seen: Set<i64>) -> Set<i64>
    decreases ids.len(),
{
    if ids.len() == 0 {
        seen
    } else {
        seen_after(ids.drop_first(), seen.insert(ids[0]))
    }
}

/// Message for a device listed twice in one act.
pub open spec fn duplicate_device_message(id: i64) -> Seq<char> {
    "Устройство id="@ + signed_decimal(id as int) + " включено в акт более одного раза"@
}

fn duplicate_device_text(id: i64) -> (s: String)
    ensures
        s@ == duplicate_device_message(id),
{
    let mut s = String::new();
    s.append("Устройство id=");
    push_all(&mut s, &signed_decimal_chars(id));
    s.append(" включено в акт более одного раза");
    s
}

/// A field name and the message shown for it.
pub type FieldError = (Seq<char>, Seq<char>);

/// `r` is the validation error `fe`, or `Ok` when there is none.
pub open spec fn result_is(r: Result<(), AppError>, fe: Option<FieldError>) -> bool {
    match fe {
        None => r is Ok,
        Some(x) => r matches Err(e) && is_validation(e, x.0, x.1),
    }
}

// ---------------------------------------------------------------------------
// Create
// ---------------------------------------------------------------------------

/// One position of a new handover act.
pub struct ActCreateItem {
    pub device_id: i64,
    pub quantity: i64,
    /// Existing devices of one group; when empty, `quantity - 1` clones of
    /// `device_id` are made.
    pub device_ids: Vec<i64>,
}

/// A new handover act.
pub struct ActCreateDto {
    pub giver_name: String,
    pub receiver_name: String,
    pub items: Vec<ActCreateItem>,
    pub number_override: Option<i64>,
    pub handover_date_utc: Option<i64>,
    pub location_id: Option<i64>,
    pub location_name: Option<String>,
    pub notes: Option<String>,
    pub deadline_utc: Option<i64>,
}

/// Largest quantity of one position.
pub const MAX_CLONE_QTY: i64 = 1000;

/// Largest number of positions in one act.
pub const MAX_ACT_ITEMS: usize = 100;

/// Message for a device-list length that differs from the quantity.
pub open spec fn ids_len_message(len: nat, quantity: i64) -> Seq<char> {
    "device_ids.len()="@ + decimal(len) + " не совпадает с quantity="@ + signed_decimal(quantity as int)
}

/// The first error among the positions from `i` on, `seen` holding the
/// devices of the positions before.
pub open spec fn create_items_error(items: Seq<ActCreateItem>, i: int, seen: Set<i64>) -> Option<FieldError>
    decreases items.len() - i,
{
    if i < 0 || i >= items.len() {
        None
    } else {
        let it = items[i];
        if it.quantity < 1 {
            Some((item_field(i, "quantity"@), "Количество должно быть ≥ 1"@))
        } else if it.quantity > MAX_CLONE_QTY {
            Some((item_field(i, "quantity"@), "Кол-во не должно превышать 1000"@))
        } else if it.device_ids@.len() != 0 && it.device_ids@.len() != it.quantity {
            Some((item_field(i, "device_ids"@), ids_len_message(it.device_ids@.len(), it.quantity)))
        } else {
            match first_dup(item_ids(it.device_id, it.device_ids@), seen) {
                Some(d) => Some((item_field(i, "device_ids"@), duplicate_device_message(d))),
                None => create_items_error(items, i + 1, seen_after(item_ids(it.device_id, it.device_ids@), seen)),
            }
        }
    }
}

/// The first validation error of a new handover act, in the order the
/// checks run: giver, receiver, number of positions, each position in turn
/// (quantity range, device-list length, a device used twice), then the
/// custom number.
pub open spec fn create_error(p: ActCreateDto) -> Option<FieldError> {
    if is_blank(p.giver_name@) {
        Some(("giver_name"@, "Поле «Сдал» обязательно"@))
    } else if is_blank(p.receiver_name@) {
        Some(("receiver_name"@, "Поле «Принял» обязательно"@))
    } else if p.items@.len() == 0 {
        Some(("items"@, "Добавьте хотя бы одну позицию"@))
    } else if p.items@.len() > MAX_ACT_ITEMS {
        Some(("items"@, "Максимум 100 позиций в одном акте"@))
    } else {
        match create_items_error(p.items@, 0, Set::empty()) {
            Some(e) => Some(e),
            None => match p.number_override {
                Some(n) => if n < 1 {
                    Some(("number_override"@, "Номер акта должен быть ≥ 1"@))
                } else {
                    None
                },
                None => None,
            },
        }
    }
}

proof fn lemma_dup_step(ids: Seq<i64>, j: int, s: Set<i64>)
    requires
        0 <= j < ids.len(),
        !s.contains(ids[j]),
    ensures
        first_dup(ids.subrange(j, ids.len() as int), s)
            == first_dup(ids.subrange(j + 1, ids.len() as int), s.insert(ids[j])),
        seen_after(ids.subrange(j, ids.len() as int), s)
            == seen_after(ids.subrange(j + 1, ids.len() as int), s.insert(ids[j])),
{
    assert(ids.subrange(j, ids.len() as int).drop_first() =~= ids.subrange(j + 1, ids.len() as int));
}

proof fn lemma_push_contains(v: Seq<i64>, d: i64)
    ensures
        forall|x: i64| v.push(d).contains(x) <==> (v.contains(x) || x == d),
{
    assert forall|x: i64| v.push(d).contains(x) <==> (v.contains(x) || x == d) by {
        if v.contains(x) {
            let k = choose|k: int| 0 <= k < v.len() && v[k] == x;
            assert(v.push(d)[k] == x);
        }
        if x == d {
            assert(v.push(d)[v.len() as int] == d);
        }
        if v.push(d).contains(x) && x != d {
            let k = choose|k: int| 0 <= k < v.push(d).len() && v.push(d)[k] == x;
            assert(k < v.len());
            assert(v[k] == x);
        }
    }
}

/// No value occurs twice in `s`.
pub open spec fn no_repeats(s: Seq<i64>) -> bool {
    forall|a: int, b: int| 0 <= a < b < s.len() ==> s[a] != s[b]
}

/// No value of `s` is in `seen`.
pub open spec fn avoids(s: Seq<i64>, seen: Set<i64>) -> bool {
    forall|j: int| 0 <= j < s.len() ==> !seen.contains(#[trigger] s[j])
}

/// The devices of positions `from ..` of a new act, position after
/// position: each position's device list, or its single device when the
/// list is empty.
pub open spec fn devices_from(items: Seq<ActCreateItem>, from: int) -> Seq<i64>
    decreases items.len() - from,
{
    if from < 0 || from >= items.len() {
        Seq::empty()
    } else {
        (if items[from].device_ids@.len() == 0 { seq![items[from].device_id] } else { items[from].device_ids@ })
            + devices_from(items, from + 1)
    }
}

/// A position of a new act is well formed: 1 to 1000 pieces, and a device
/// list that is empty or names one device per piece.
pub open spec fn position_well_formed(it: ActCreateItem) -> bool {
    &&& 1 <= it.quantity <= 1000
    &&& (it.device_ids@.len() == 0 || it.device_ids@.len() == it.quantity)
}

proof fn lemma_first_dup(ids: Seq<i64>, s: Set<i64>)
    ensures
        first_dup(ids, s) is None <==> (no_repeats(ids) && avoids(ids, s)),
        forall|x: i64| #[trigger] seen_after(ids, s).contains(x) <==> (s.contains(x) || ids.contains(x)),
    decreases ids.len(),
{
    if ids.len() > 0 {
        let rest = ids.drop_first();
        let s1 = s.insert(ids[0]);
        lemma_first_dup(rest, s1);
        assert forall|j: int| 0 <= j < rest.len() implies #[trigger] rest[j] == ids[j + 1] by {}
        assert(seen_after(ids, s) == seen_after(rest, s1));
        assert forall|x: i64| #[trigger] seen_after(ids, s).contains(x) <==> (s.contains(x) || ids.contains(x)) by {
            assert(seen_after(rest, s1).contains(x) <==> (s1.contains(x) || rest.contains(x)));
            if ids.contains(x) && x != ids[0] {
                let k = choose|k: int| 0 <= k < ids.len() && ids[k] == x;
                assert(rest[k - 1] == x);
            }
            if rest.contains(x) {
                let k = choose|k: int| 0 <= k < rest.len() && rest[k] == x;
                assert(ids[k + 1] == x);
            }
            assert(ids[0] == ids[0]);
            if x == ids[0] {
                assert(ids.contains(x));
            }
        }
        if s.contains(ids[0]) {
            assert(!avoids(ids, s));
        } else if first_dup(rest, s1) is None {
            assert forall|a: int, b: int| 0 <= a < b < ids.len() implies ids[a] != ids[b] by {
                if a == 0 {
                    assert(!s1.contains(rest[b - 1]));
                } else {
                    assert(rest[a - 1] != rest[b - 1]);
                }
            }
            assert forall|j: int| 0 <= j < ids.len() implies !s.contains(#[trigger] ids[j]) by {
                if j > 0 {
                    assert(!s1.contains(rest[j - 1]));
                }
            }
        } else {
            if no_repeats(ids) && avoids(ids, s) {
                assert forall|a: int, b: int| 0 <= a < b < rest.len() implies rest[a] != rest[b] by {
                    assert(ids[a + 1] != ids[b + 1]);
                }
                assert forall|j: int| 0 <= j < rest.len() implies !s1.contains(#[trigger] rest[j]) by {
                    assert(ids[0] != ids[j + 1]);
                    assert(!s.contains(ids[j + 1]));
                }
                assert(false);
            }
        }
    }
}

proof fn lemma_concat_no_repeats(a: Seq<i64>, b: Seq<i64>)
    ensures
        no_repeats(a + b) <==> (no_repeats(a) && no_repeats(b) && forall|i: int, j: int| 0 <= i < a.len() && 0 <= j < b.len() ==> a[i] != b[j]),
{
    let c = a + b;
    if no_repeats(c) {
        assert forall|i: int, j: int| 0 <= i < j < a.len() implies a[i] != a[j] by {
            assert(c[i] == a[i] && c[j] == a[j]);
        }
        assert forall|i: int, j: int| 0 <= i < j < b.len() implies b[i] != b[j] by {
            assert(c[a.len() + i] == b[i] && c[a.len() + j] == b[j]);
        }
        assert forall|i: int, j: int| 0 <= i < a.len() && 0 <= j < b.len() implies a[i] != b[j] by {
            assert(c[i] == a[i] && c[a.len() + j] == b[j]);
        }
    }
    if no_repeats(a) && no_repeats(b) && forall|i: int, j: int| 0 <= i < a.len() && 0 <= j < b.len() ==> a[i] != b[j] {
        assert forall|x: int, y: int| 0 <= x < y < c.len() implies c[x] != c[y] by {
            if y < a.len() {
                assert(c[x] == a[x] && c[y] == a[y]);
            } else if x < a.len() {
                assert(c[x] == a[x] && c[y] == b[y - a.len()]);
            } else {
                assert(c[x] == b[x - a.len()] && c[y] == b[y - a.len()]);
            }
        }
    }
}

proof fn lemma_create_items(items: Seq<ActCreateItem>, i: int, seen: Set<i64>)
    requires
        0 <= i <= items.len(),
    ensures
        create_items_error(items, i, seen) is None <==> (
            (forall|k: int| i <= k < items.len() ==> position_well_formed(#[trigger] items[k]))
            && no_repeats(devices_from(items, i)) && avoids(devices_from(items, i), seen)),
    decreases items.len() - i,
{
    if i < items.len() {
        let it = items[i];
        let ids = item_ids(it.device_id, it.device_ids@);
        let rest = devices_from(items, i + 1);
        assert(devices_from(items, i) == ids + rest);
        if !position_well_formed(it) {
            assert(!(forall|k: int| i <= k < items.len() ==> position_well_formed(#[trigger] items[k])));
        } else {
            lemma_first_dup(ids, seen);
            lemma_concat_no_repeats(ids, rest);
            let s1 = seen_after(ids, seen);
            lemma_create_items(items, i + 1, s1);
            let all = ids + rest;
            if first_dup(ids, seen) is None {
                assert(avoids(rest, s1) <==> (avoids(rest, seen)
                    && forall|x: int, y: int| 0 <= x < ids.len() && 0 <= y < rest.len() ==> ids[x] != rest[y])) by {
                    if avoids(rest, s1) {
                        assert forall|y: int| 0 <= y < rest.len() implies !seen.contains(#[trigger] rest[y]) by {
                            assert(!s1.contains(rest[y]));
                        }
                        assert forall|x: int, y: int| 0 <= x < ids.len() && 0 <= y < rest.len() implies ids[x] != rest[y] by {
                            assert(!s1.contains(rest[y]));
                            assert(ids.contains(ids[x]));
                        }
                    }
                    if avoids(rest, seen) && forall|x: int, y: int| 0 <= x < ids.len() && 0 <= y < rest.len() ==> ids[x] != rest[y] {
                        assert forall|y: int| 0 <= y < rest.len() implies !s1.contains(#[trigger] rest[y]) by {
                            if ids.contains(rest[y]) {
                                let x = choose|x: int| 0 <= x < ids.len() && ids[x] == rest[y];
                            }
                        }
                    }
                }
                assert(avoids(all, seen) <==> (avoids(ids, seen) && avoids(rest, seen))) by {
                    if avoids(ids, seen) && avoids(rest, seen) {
                        assert forall|j: int| 0 <= j < all.len() implies !seen.contains(#[trigger] all[j]) by {
                            if j < ids.len() {
                                assert(all[j] == ids[j]);
                            } else {
                                assert(all[j] == rest[j - ids.len()]);
                            }
                        }
                    }
                    if avoids(all, seen) {
                        assert forall|j: int| 0 <= j < rest.len() implies !seen.contains(#[trigger] rest[j]) by {
                            assert(all[ids.len() + j] == rest[j]);
                        }
                        assert forall|j: int| 0 <= j < ids.len() implies !seen.contains(#[trigger] ids[j]) by {
                            assert(all[j] == ids[j]);
                        }
                    }
                }
                assert((forall|k: int| i <= k < items.len() ==> position_well_formed(#[trigger] items[k]))
                    <==> (forall|k: int| i + 1 <= k < items.len() ==> position_well_formed(#[trigger] items[k])));
            } else {
                if no_repeats(all) && avoids(all, seen) {
                    assert forall|j: int| 0 <= j < ids.len() implies !seen.contains(#[trigger] ids[j]) by {
                        assert(all[j] == ids[j]);
                    }
                    assert(false);
                }
            }
        }
    }
}

/// A new handover act is accepted exactly when both parties are named, it
/// has 1 to 100 positions, each of 1 to 1000 pieces with a device list
/// that is empty or names one device per piece, no device appears twice in
/// the whole act, and a custom number, if any, is at least 1.
pub proof fn accepted_handover_is_well_formed(p: ActCreateDto)
    ensures
        create_error(p) is None <==> {
            &&& !is_blank(p.giver_name@)
            &&& !is_blank(p.receiver_name@)
            &&& 1 <= p.items@.len() <= 100
            &&& forall|k: int| 0 <= k < p.items@.len() ==> position_well_formed(#[trigger] p.items@[k])
            &&& no_repeats(devices_from(p.items@, 0))
            &&& (p.number_override matches Some(n) ==> n >= 1)
        },
{
    lemma_create_items(p.items@, 0, Set::empty());
}

/// Checks a new handover act; the error is the first that `create_error` names.
pub fn validate_create(p: &ActCreateDto) -> (r: Result<(), AppError>)
    ensures
        result_is(r, create_error(*p)),
{
    if blank(p.giver_name.as_str()) {
        return Err(validation("giver_name", "Поле «Сдал» обязательно"));
    }
    if blank(p.receiver_name.as_str()) {
        return Err(validation("receiver_name", "Поле «Принял» обязательно"));
    }
    if p.items.len() == 0 {
        return Err(validation("items", "Добавьте хотя бы одну позицию"));
    }
    if p.items.len() > MAX_ACT_ITEMS {
        return Err(validation("items", "Максимум 100 позиций в одном акте"));
    }
    let mut seen: Vec<i64> = Vec::new();
    let ghost mut s: Set<i64> = Set::empty();
    let mut idx: usize = 0;
    while idx < p.items.len()
        invariant
            !is_blank(p.giver_name@),
            !is_blank(p.receiver_name@),
            1 <= p.items.len() <= MAX_ACT_ITEMS,
            idx <= p.items.len(),
            forall|x: i64| seen@.contains(x) <==> s.contains(x),
            create_items_error(p.items@, 0, Set::empty()) == create_items_error(p.items@, idx as int, s),
        decreases p.items.len() - idx,
    {
        let it = &p.items[idx];
        if it.quantity < 1 {
            return Err(validation_owned(item_field_text(idx, "quantity"), owned("Количество должно быть ≥ 1")));
        }
        if it.quantity > MAX_CLONE_QTY {
            return Err(validation_owned(item_field_text(idx, "quantity"), owned("Кол-во не должно превышать 1000")));
        }
        if it.device_ids.len() != 0 && it.device_ids.len() != it.quantity as usize {
            let mut msg = String::new();
            msg.append("device_ids.len()=");
            push_all(&mut msg, &decimal_chars(it.device_ids.len() as u64));
            msg.append(" не совпадает с quantity=");
            push_all(&mut msg, &signed_decimal_chars(it.quantity));
            return Err(validation_owned(item_field_text(idx, "device_ids"), msg));
        }
        let ids = effective_ids(it.device_id, &it.device_ids);
        let ghost s0 = s;
        let mut j: usize = 0;
        assert(ids@.subrange(0, ids@.len() as int) =~= ids@);
        while j < ids.len()
            invariant
                !is_blank(p.giver_name@),
                !is_blank(p.receiver_name@),
                1 <= p.items.len() <= MAX_ACT_ITEMS,
                idx < p.items.len(),
                *it == p.items@[idx as int],
                1 <= it.quantity <= MAX_CLONE_QTY,
                !(it.device_ids@.len() != 0 && it.device_ids@.len() != it.quantity),
                ids@ == item_ids(it.device_id, it.device_ids@),
                create_items_error(p.items@, 0, Set::empty()) == create_items_error(p.items@, idx as int, s0),
                j <= ids.len(),
                forall|x: i64| seen@.contains(x) <==> s.contains(x),
                first_dup(ids@, s0) == first_dup(ids@.subrange(j as int, ids@.len() as int), s),
                seen_after(ids@, s0) == seen_after(ids@.subrange(j as int, ids@.len() as int), s),
            decreases ids.len() - j,
        {
            let d = ids[j];
            if contains_i64(&seen, d) {
                assert(ids@.subrange(j as int, ids@.len() as int)[0] == d);
                return Err(validation_owned(item_field_text(idx, "device_ids"), duplicate_device_text(d)));
            }
            proof {
                lemma_dup_step(ids@, j as int, s);
            }
            let ghost old_seen = seen@;
            seen.push(d);
            proof {
                s = s.insert(d);
                lemma_push_contains(old_seen, d);
            }
            j = j + 1;
        }
        assert(ids@.subrange(ids@.len() as int, ids@.len() as int) =~= Seq::<i64>::empty());
        idx = idx + 1;
    }
    match p.number_override {
        Some(n) => {
            if n < 1 {
                return Err(validation("number_override", "Номер акта должен быть ≥ 1"));
            }
        },
        None => {},
    }
    Ok(())
}

/// Adds the elements of `ids` to `seen` one by one, stopping at the first
/// one already there, which it returns.
fn absorb_ids(seen: &mut Vec<i64>, ids: &Vec<i64>) -> (r: Option<i64>)
    ensures
        r == first_dup(ids@, old(seen)@.to_set()),
        r is None ==> final(seen)@.to_set() == seen_after(ids@, old(seen)@.to_set()),
{
    let ghost s0 = seen@.to_set();
    let mut j: usize = 0;
    assert(ids@.subrange(0, ids@.len() as int) =~= ids@);
    while j < ids.len()
        invariant
            s0 == old(seen)@.to_set(),
            j <= ids.len(),
            first_dup(ids@, s0) == first_dup(ids@.subrange(j as int, ids@.len() as int), seen@.to_set()),
            seen_after(ids@, s0) == seen_after(ids@.subrange(j as int, ids@.len() as int), seen@.to_set()),
        decreases ids.len() - j,
    {
        let d = ids[j];
        if contains_i64(seen, d) {
            assert(ids@.subrange(j as int, ids@.len() as int)[0] == d);
            assert(seen@.to_set().contains(d));
            return Some(d);
        }
        proof {
            lemma_dup_step(ids@, j as int, seen@.to_set());
        }
        let ghost old_seen = seen@;
        seen.push(d);
        proof {
            lemma_push_contains(old_seen, d);
            assert(seen@.to_set() =~= old_seen.to_set().insert(d));
        }
        j = j + 1;
    }
    assert(ids@.subrange(ids@.len() as int, ids@.len() as int) =~= Seq::<i64>::empty());
    None
}

// ---------------------------------------------------------------------------
// Update (handover)
// ---------------------------------------------------------------------------

/// One position of an edited handover act (the full replacement set).
pub struct ActUpdateItem {
    pub device_id: i64,
    pub complectation_at_time: Option<String>,
}

/// An edit of a handover act.
pub struct ActUpdateDto {
    pub id: i64,
    pub expected_version: i64,
    pub giver_name: String,
    pub receiver_name: String,
    pub items: Vec<ActUpdateItem>,
    pub number_override: Option<i64>,
    pub handover_date_utc: Option<i64>,
    pub location_id: Option<i64>,
    pub location_name: Option<String>,
    pub notes: Option<String>,
    pub deadline_utc: Option<i64>,
}

/// The first position from `i` on whose device is in `seen` or repeats.
pub open spec fn update_items_error(items: Seq<ActUpdateItem>, i: int, seen: Set<i64>) -> Option<FieldError>
    decreases items.len() - i,
{
    if i < 0 || i >= items.len() {
        None
    } else if seen.contains(items[i].device_id) {
        Some((item_field(i, "device_id"@), duplicate_device_message(items[i].device_id)))
    } else {
        update_items_error(items, i + 1, seen.insert(items[i].device_id))
    }
}

/// The first validation error of a handover edit: giver, receiver, number
/// of positions, a device listed twice, then the custom number.
pub open spec fn update_error(p: ActUpdateDto) -> Option<FieldError> {
    if is_blank(p.giver_name@) {
        Some(("giver_name"@, "Поле «Сдал» обязательно"@))
    } else if is_blank(p.receiver_name@) {
        Some(("receiver_name"@, "Поле «Принял» обязательно"@))
    } else if p.items@.len() == 0 {
        Some(("items"@, "Добавьте хотя бы одну позицию"@))
    } else if p.items@.len() > MAX_ACT_ITEMS {
        Some(("items"@, "Максимум 100 позиций в одном акте"@))
    } else {
        match update_items_error(p.items@, 0, Set::empty()) {
            Some(e) => Some(e),
            None => match p.number_override {
                Some(n) => if n < 1 {
                    Some(("number_override"@, "Номер акта должен быть ≥ 1"@))
                } else {
                    None
                },
                None => None,
            },
        }
    }
}

/// The devices of the positions of an edit, in order.
pub open spec fn update_devices(items: Seq<ActUpdateItem>) -> Seq<i64> {
    items.map_values(|it: ActUpdateItem| it.device_id)
}

proof fn lemma_update_items(items: Seq<ActUpdateItem>, i: int, seen: Set<i64>)
    requires
        0 <= i <= items.len(),
    ensures
        update_items_error(items, i, seen) is None
            <==> first_dup(update_devices(items).subrange(i, items.len() as int), seen) is None,
    decreases items.len() - i,
{
    let d = update_devices(items).subrange(i, items.len() as int);
    if i < items.len() {
        lemma_update_items(items, i + 1, seen.insert(items[i].device_id));
        assert(d[0] == items[i].device_id);
        assert(d.drop_first() =~= update_devices(items).subrange(i + 1, items.len() as int));
    }
}

/// A handover edit is accepted exactly when both parties are named, it has
/// 1 to 100 positions, no device is listed twice, and a custom number, if
/// any, is at least 1.
pub proof fn accepted_edit_is_well_formed(p: ActUpdateDto)
    ensures
        update_error(p) is None <==> {
            &&& !is_blank(p.giver_name@)
            &&& !is_blank(p.receiver_name@)
            &&& 1 <= p.items@.len() <= 100
            &&& no_repeats(update_devices(p.items@))
            &&& (p.number_override matches Some(n) ==> n >= 1)
        },
{
    lemma_update_items(p.items@, 0, Set::empty());
    let d = update_devices(p.items@);
    assert(d.subrange(0, p.items@.len() as int) =~= d);
    lemma_first_dup(d, Set::empty());
}

/// Checks a handover edit; the error is the first that `update_error` names.
pub fn validate_update(p: &ActUpdateDto) -> (r: Result<(), AppError>)
    ensures
        result_is(r, update_error(*p)),
{
    if blank(p.giver_name.as_str()) {
        return Err(validation("giver_name", "Поле «Сдал» обязательно"));
    }
    if blank(p.receiver_name.as_str()) {
        return Err(validation("receiver_name", "Поле «Принял» обязательно"));
    }
    if p.items.len() == 0 {
        return Err(validation("items", "Добавьте хотя бы одну позицию"));
    }
    if p.items.len() > MAX_ACT_ITEMS {
        return Err(validation("items", "Максимум 100 позиций в одном акте"));
    }
    let mut seen: Vec<i64> = Vec::new();
    let mut idx: usize = 0;
    assert(seen@.to_set() =~= Set::<i64>::empty());
    while idx < p.items.len()
        invariant
            !is_blank(p.giver_name@),
            !is_blank(p.receiver_name@),
            1 <= p.items.len() <= MAX_ACT_ITEMS,
            idx <= p.items.len(),
            update_items_error(p.items@, 0, Set::empty()) == update_items_error(p.items@, idx as int, seen@.to_set()),
        decreases p.items.len() - idx,
    {
        let d = p.items[idx].device_id;
        if contains_i64(&seen, d) {
            return Err(validation_owned(item_field_text(idx, "device_id"), duplicate_device_text(d)));
        }
        let ghost old_seen = seen@;
        seen.push(d);
        proof {
            lemma_push_contains(old_seen, d);
            assert(seen@.to_set() =~= old_seen.to_set().insert(d));
        }
        idx = idx + 1;
    }
    match p.number_override {
        Some(n) => {
            if n < 1 {
                return Err(validation("number_override", "Номер акта должен быть ≥ 1"));
            }
        },
        None => {},
    }
    Ok(())
}

// ---------------------------------------------------------------------------
// Return
// ---------------------------------------------------------------------------

/// One position of a return.
pub struct ActReturnItem {
    pub act_item_id: i64,
    pub device_id: i64,
    pub quantity: i64,
    pub device_ids: Vec<i64>,
    pub condition_override: Option<String>,
    pub location_id_override: Option<i64>,
    pub location_name_override: Option<String>,
}

/// A return of devices of a handover act.
pub struct ActReturnDto {
    pub items: Vec<ActReturnItem>,
    pub apply_to_all: bool,
    pub bulk_condition: Option<String>,
    pub bulk_location_id: Option<i64>,
    pub bulk_location_name: Option<String>,
    pub giver_name: Option<String>,
    pub receiver_name: Option<String>,
    pub handover_date_utc: Option<i64>,
}

/// The devices a return position stands for: `device_ids`, or `[device_id]`.
pub fn effective_device_ids(item: &ActReturnItem) -> (v: Vec<i64>)
    ensures
        v@ == item_ids(item.device_id, item.device_ids@),
{
    effective_ids(item.device_id, &item.device_ids)
}

/// Message for an act item listed twice in one return.
pub open spec fn duplicate_act_item_message(id: i64) -> Seq<char> {
    "act_item_id="@ + signed_decimal(id as int) + " продублирован в возврате"@
}

/// Message for a device listed twice in one return.
pub open spec fn duplicate_return_device_message(id: i64) -> Seq<char> {
    "device_id="@ + signed_decimal(id as int) + " продублирован в возврате"@
}

/// The first error among the return positions from `i` on.
pub open spec fn return_items_error(
    items: Seq<ActReturnItem>,
    i: int,
    seen_items: Set<i64>,
    seen_devices: Set<i64>,
    apply_to_all: bool,
) -> Option<FieldError>
    decreases items.len() - i,
{
    if i < 0 || i >= items.len() {
        None
    } else {
        let it = items[i];
        let dids = item_ids(it.device_id, it.device_ids@);
        if seen_items.contains(it.act_item_id) {
            Some((item_field(i, "act_item_id"@), duplicate_act_item_message(it.act_item_id)))
        } else if dids.len() == 0 {
            Some((item_field(i, "device_ids"@), "Укажите хотя бы один device_id к возврату"@))
        } else {
            match first_dup(dids, seen_devices) {
                Some(d) => Some((item_field(i, "device_ids"@), duplicate_return_device_message(d))),
                None => if it.device_ids@.len() == 0 && it.quantity < 1 {
                    Some((item_field(i, "quantity"@), "Количество должно быть ≥ 1"@))
                } else if !apply_to_all && it.condition_override is None {
                    Some((item_field(i, "condition_override"@), "Состояние обязательно (apply_to_all = false)"@))
                } else if !apply_to_all && it.location_id_override is None && it.location_name_override is None {
                    Some((item_field(i, "location_id_override"@), "Расположение обязательно (apply_to_all = false)"@))
                } else {
                    return_items_error(items, i + 1, seen_items.insert(it.act_item_id),
                        seen_after(dids, seen_devices), apply_to_all)
                },
            }
        }
    }
}

/// The first validation error of a return.
pub open spec fn return_error(p: ActReturnDto) -> Option<FieldError> {
    if p.items@.len() == 0 {
        Some(("items"@, "Добавьте хотя бы одну позицию к возврату"@))
    } else {
        return_items_error(p.items@, 0, Set::empty(), Set::empty(), p.apply_to_all)
    }
}

proof fn lemma_concat_step(ids: Seq<i64>, rest: Seq<i64>, seen: Set<i64>)
    ensures
        first_dup(ids, seen) is None ==> ((no_repeats(ids + rest) && avoids(ids + rest, seen))
            <==> (no_repeats(rest) && avoids(rest, seen_after(ids, seen)))),
        first_dup(ids, seen) is Some ==> !(no_repeats(ids + rest) && avoids(ids + rest, seen)),
{
    lemma_first_dup(ids, seen);
    lemma_concat_no_repeats(ids, rest);
    let s1 = seen_after(ids, seen);
    let all = ids + rest;
    assert(avoids(all, seen) <==> (avoids(ids, seen) && avoids(rest, seen))) by {
        if avoids(ids, seen) && avoids(rest, seen) {
            assert forall|j: int| 0 <= j < all.len() implies !seen.contains(#[trigger] all[j]) by {
                if j < ids.len() {
                    assert(all[j] == ids[j]);
                } else {
                    assert(all[j] == rest[j - ids.len()]);
                }
            }
        }
        if avoids(all, seen) {
            assert forall|j: int| 0 <= j < rest.len() implies !seen.contains(#[trigger] rest[j]) by {
                assert(all[ids.len() + j] == rest[j]);
            }
            assert forall|j: int| 0 <= j < ids.len() implies !seen.contains(#[trigger] ids[j]) by {
                assert(all[j] == ids[j]);
            }
        }
    }
    assert(avoids(rest, s1) <==> (avoids(rest, seen)
        && forall|x: int, y: int| 0 <= x < ids.len() && 0 <= y < rest.len() ==> ids[x] != rest[y])) by {
        if avoids(rest, s1) {
            assert forall|y: int| 0 <= y < rest.len() implies !seen.contains(#[trigger] rest[y]) by {
                assert(!s1.contains(rest[y]));
            }
            assert forall|x: int, y: int| 0 <= x < ids.len() && 0 <= y < rest.len() implies ids[x] != rest[y] by {
                assert(!s1.contains(rest[y]));
                assert(ids.contains(ids[x]));
            }
        }
        if avoids(rest, seen) && forall|x: int, y: int| 0 <= x < ids.len() && 0 <= y < rest.len() ==> ids[x] != rest[y] {
            assert forall|y: int| 0 <= y < rest.len() implies !s1.contains(#[trigger] rest[y]) by {
                if ids.contains(rest[y]) {
                    let x = choose|x: int| 0 <= x < ids.len() && ids[x] == rest[y];
                }
            }
        }
    }
}

/// The devices of positions `from ..` of a return, position after position.
pub open spec fn returned_devices_from(items: Seq<ActReturnItem>, from: int) -> Seq<i64>
    decreases items.len() - from,
{
    if from < 0 || from >= items.len() {
        Seq::empty()
    } else {
        (if items[from].device_ids@.len() == 0 { seq![items[from].device_id] } else { items[from].device_ids@ })
            + returned_devices_from(items, from + 1)
    }
}

/// The handover positions a return names, in order.
pub open spec fn returned_positions(items: Seq<ActReturnItem>) -> Seq<i64> {
    items.map_values(|it: ActReturnItem| it.act_item_id)
}

/// One position of a return is complete: a quantity of at least 1 when it
/// names no device list, and, unless the bulk values apply to all, its own
/// condition and location.
pub open spec fn return_position_complete(it: ActReturnItem, apply_to_all: bool) -> bool {
    &&& (it.device_ids@.len() == 0 ==> it.quantity >= 1)
    &&& (!apply_to_all ==> it.condition_override is Some)
    &&& (!apply_to_all ==> (it.location_id_override is Some || it.location_name_override is Some))
}

proof fn lemma_return_items(items: Seq<ActReturnItem>, i: int, si: Set<i64>, sd: Set<i64>, a: bool)
    requires
        0 <= i <= items.len(),
    ensures
        return_items_error(items, i, si, sd, a) is None <==> {
            &&& forall|k: int| i <= k < items.len() ==> return_position_complete(#[trigger] items[k], a)
            &&& no_repeats(returned_positions(items).subrange(i, items.len() as int))
            &&& avoids(returned_positions(items).subrange(i, items.len() as int), si)
            &&& no_repeats(returned_devices_from(items, i))
            &&& avoids(returned_devices_from(items, i), sd)
        },
    decreases items.len() - i,
{
    let ps = returned_positions(items).subrange(i, items.len() as int);
    if i < items.len() {
        let it = items[i];
        let dids = item_ids(it.device_id, it.device_ids@);
        let rest = returned_devices_from(items, i + 1);
        let prest = returned_positions(items).subrange(i + 1, items.len() as int);
        assert(returned_devices_from(items, i) == dids + rest);
        assert(ps =~= seq![it.act_item_id] + prest);
        lemma_concat_step(seq![it.act_item_id], prest, si);
        lemma_concat_step(dids, rest, sd);
        assert(first_dup(seq![it.act_item_id], si) == (if si.contains(it.act_item_id) { Some(it.act_item_id) } else {
            first_dup(seq![it.act_item_id].drop_first(), si.insert(it.act_item_id)) }));
        assert(seq![it.act_item_id].drop_first() =~= Seq::<i64>::empty());
        assert(seen_after(seq![it.act_item_id], si) == seen_after(Seq::<i64>::empty(), si.insert(it.act_item_id)));
        lemma_return_items(items, i + 1, si.insert(it.act_item_id), seen_after(dids, sd), a);
        assert((forall|k: int| i <= k < items.len() ==> return_position_complete(#[trigger] items[k], a))
            <==> (return_position_complete(it, a)
                && forall|k: int| i + 1 <= k < items.len() ==> return_position_complete(#[trigger] items[k], a)));
    }
}

/// A return is accepted exactly when it has at least one position, no
/// handover position is returned twice, no device is returned twice in the
/// whole return, and every position is complete (a quantity of at least 1
/// without a device list; its own condition and location unless the bulk
/// values apply to all).
pub proof fn accepted_return_is_well_formed(p: ActReturnDto)
    ensures
        return_error(p) is None <==> {
            &&& p.items@.len() >= 1
            &&& no_repeats(returned_positions(p.items@))
            &&& no_repeats(returned_devices_from(p.items@, 0))
            &&& forall|k: int| 0 <= k < p.items@.len() ==> return_position_complete(#[trigger] p.items@[k], p.apply_to_all)
        },
{
    lemma_return_items(p.items@, 0, Set::empty(), Set::empty(), p.apply_to_all);
    assert(returned_positions(p.items@).subrange(0, p.items@.len() as int) =~= returned_positions(p.items@));
}

/// Checks a return payload; the error is the first that `return_error` names.
pub fn validate_return(p: &ActReturnDto) -> (r: Result<(), AppError>)
    ensures
        result_is(r, return_error(*p)),
{
    if p.items.len() == 0 {
        return Err(validation("items", "Добавьте хотя бы одну позицию к возврату"));
    }
    let mut seen_items: Vec<i64> = Vec::new();
    let mut seen_devices: Vec<i64> = Vec::new();
    let mut idx: usize = 0;
    assert(seen_items@.to_set() =~= Set::<i64>::empty());
    assert(seen_devices@.to_set() =~= Set::<i64>::empty());
    while idx < p.items.len()
        invariant
            p.items.len() >= 1,
            idx <= p.items.len(),
            return_error(*p) == return_items_error(p.items@, idx as int, seen_items@.to_set(),
                seen_devices@.to_set(), p.apply_to_all),
        decreases p.items.len() - idx,
    {
        let it = &p.items[idx];
        let aid = it.act_item_id;
        if contains_i64(&seen_items, aid) {
            let mut msg = String::new();
            msg.append("act_item_id=");
            push_all(&mut msg, &signed_decimal_chars(aid));
            msg.append(" продублирован в возврате");
            return Err(validation_owned(item_field_text(idx, "act_item_id"), msg));
        }
        let ghost old_items = seen_items@;
        seen_items.push(aid);
        proof {
            lemma_push_contains(old_items, aid);
            assert(seen_items@.to_set() =~= old_items.to_set().insert(aid));
        }
        let dids = effective_device_ids(it);
        if dids.len() == 0 {
            return Err(validation_owned(item_field_text(idx, "device_ids"),
                owned("Укажите хотя бы один device_id к возврату")));
        }
        match absorb_ids(&mut seen_devices, &dids) {
            Some(d) => {
                let mut msg = String::new();
                msg.append("device_id=");
                push_all(&mut msg, &signed_decimal_chars(d));
                msg.append(" продублирован в возврате");
                return Err(validation_owned(item_field_text(idx, "device_ids"), msg));
            },
            None => {},
        }
        if it.device_ids.len() == 0 && it.quantity < 1 {
            return Err(validation_owned(item_field_text(idx, "quantity"), owned("Количество должно быть ≥ 1")));
        }
        if !p.apply_to_all {
            if it.condition_override.is_none() {
                return Err(validation_owned(item_field_text(idx, "condition_override"),
                    owned("Состояние обязательно (apply_to_all = false)")));
            }
            if it.location_id_override.is_none() && it.location_name_override.is_none() {
                return Err(validation_owned(item_field_text(idx, "location_id_override"),
                    owned("Расположение обязательно (apply_to_all = false)")));
            }
        }
        idx = idx + 1;
    }
    Ok(())
}

/// An edit of a return act (the full replacement set of positions).
pub struct ActUpdateReturnDto {
    pub id: i64,
    pub expected_version: i64,
    pub giver_name: String,
    pub receiver_name: String,
    pub handover_date_utc: i64,
    pub items: Vec<ActReturnItem>,
    pub apply_to_all: bool,
    pub bulk_condition: Option<String>,
    pub bulk_location_id: Option<i64>,
    pub bulk_location_name: Option<String>,
}

/// A return edit must keep at least one position (a whole return is undone
/// by deleting it instead).
pub fn validate_update_return(p: &ActUpdateReturnDto) -> (r: Result<(), AppError>)
    ensures
        p.items@.len() == 0 ==> (r matches Err(e) && is_validation(e, "items"@, "Добавьте хотя бы одну позицию"@)),
        p.items@.len() != 0 ==> r is Ok,
{
    if p.items.len() == 0 {
        return Err(validation("items", "Добавьте хотя бы одну позицию"));
    }
    Ok(())
}

// ---------------------------------------------------------------------------
// Act state guards
// ---------------------------------------------------------------------------

/// The two kinds of act.
#[derive(Clone, Copy, Debug, PartialEq, Eq, Structural)]
pub enum ActType {
    Handover,
    Return,
}

/// What the guards read of a stored act.
#[derive(Clone, Copy, Debug, PartialEq, Eq)]
pub struct ActState {
    pub id: i64,
    pub number: i64,
    pub act_type: ActType,
    pub version: i64,
    pub deleted: bool,
    pub archived: bool,
    pub parent_act_id: Option<i64>,
}

/// `e` is the "act not found" error for `id`.
pub open spec fn is_act_not_found(e: AppError, id: i64) -> bool {
    e matches AppError::NotFound { entity, id: i } && entity@ == "act"@ && i == id
}

/// `e` is the optimistic-lock error for an act.
pub open spec fn is_act_lock_mismatch(e: AppError, id: i64, expected: i64, actual: i64) -> bool {
    e matches AppError::OptimisticLockMismatch { entity, id: i, expected: x, actual: a }
        && entity@ == "act"@ && i == id && x == expected && a == actual
}

/// The message refusing an edit of the wrong kind of act.
pub open spec fn wrong_type_message(required: ActType) -> Seq<char> {
    match required {
        ActType::Handover => "Редактировать можно только акты выдачи (handover)"@,
        ActType::Return => "Редактировать можно только акты возврата"@,
    }
}

/// Before an edit: the act exists (not soft-deleted), is of the kind this
/// edit is for, and still has the version the client saw.
pub fn check_act_editable(act: &ActState, required: ActType, expected_version: i64) -> (r: Result<(), AppError>)
    ensures
        act.deleted ==> (r matches Err(e) && is_act_not_found(e, act.id)),
        !act.deleted && act.act_type != required ==> (r matches Err(e) && is_validation(e, "id"@, wrong_type_message(required))),
        !act.deleted && act.act_type == required && act.version != expected_version
            ==> (r matches Err(e) && is_act_lock_mismatch(e, act.id, expected_version, act.version)),
        r is Ok <==> (!act.deleted && act.act_type == required && act.version == expected_version),
{
    if act.deleted {
        return Err(AppError::NotFound { entity: "act".to_owned(), id: act.id });
    }
    if act.act_type != required {
        return match required {
            ActType::Handover => Err(validation("id", "Редактировать можно только акты выдачи (handover)")),
            ActType::Return => Err(validation("id", "Редактировать можно только акты возврата")),
        };
    }
    if act.version != expected_version {
        return Err(AppError::OptimisticLockMismatch {
            entity: "act".to_owned(),
            id: act.id,
            expected: expected_version,
            actual: act.version,
        });
    }
    Ok(())
}

/// Message for a return against an archived act.
pub open spec fn archived_message(number: i64) -> Seq<char> {
    "Акт №"@ + signed_decimal(number as int) + " уже архивирован — все устройства вернулись"@
}

/// Before a return: the parent exists, is a handover act and is not yet
/// archived (not every device came back).
pub fn check_return_parent(parent: &ActState) -> (r: Result<(), AppError>)
    ensures
        parent.deleted ==> (r matches Err(e) && is_act_not_found(e, parent.id)),
        !parent.deleted && parent.act_type != ActType::Handover
            ==> (r matches Err(e) && is_validation(e, "act_id"@, "Возврат можно оформить только по handover-акту"@)),
        !parent.deleted && parent.act_type == ActType::Handover && parent.archived
            ==> (r matches Err(e) && crate::error::is_conflict(e, archived_message(parent.number))),
        r is Ok <==> (!parent.deleted && parent.act_type == ActType::Handover && !parent.archived),
{
    if parent.deleted {
        return Err(AppError::NotFound { entity: "act".to_owned(), id: parent.id });
    }
    if parent.act_type != ActType::Handover {
        return Err(validation("act_id", "Возврат можно оформить только по handover-акту"));
    }
    if parent.archived {
        let mut msg = String::new();
        msg.append("Акт №");
        push_all(&mut msg, &signed_decimal_chars(parent.number));
        msg.append(" уже архивирован — все устройства вернулись");
        return Err(AppError::Conflict { reason: msg });
    }
    Ok(())
}

/// Before a deletion: the act exists and has the version the client saw.
pub fn check_act_deletable(act: &ActState, version: i64) -> (r: Result<(), AppError>)
    ensures
        act.deleted ==> (r matches Err(e) && is_act_not_found(e, act.id)),
        !act.deleted && act.version != version ==> (r matches Err(e) && is_act_lock_mismatch(e, act.id, version, act.version)),
        r is Ok <==> (!act.deleted && act.version == version),
{
    if act.deleted {
        return Err(AppError::NotFound { entity: "act".to_owned(), id: act.id });
    }
    if act.version != version {
        return Err(AppError::OptimisticLockMismatch {
            entity: "act".to_owned(),
            id: act.id,
            expected: version,
            actual: act.version,
        });
    }
    Ok(())
}

// ---------------------------------------------------------------------------
// Numbers
// ---------------------------------------------------------------------------

/// Message for a number already used by another act.
pub open spec fn number_taken_message(n: i64) -> Seq<char> {
    "Акт №"@ + signed_decimal(n as int) + " уже существует"@
}

/// A requested number is usable only if no act (deleted ones included)
/// already has it.
pub fn claim_act_number(requested: i64, exists: bool) -> (r: Result<i64, AppError>)
    ensures
        !exists ==> r == Ok::<i64, AppError>(requested),
        exists ==> (r matches Err(e) && crate::error::is_conflict(e, number_taken_message(requested))),
{
    if exists {
        let mut msg = String::new();
        msg.append("Акт №");
        push_all(&mut msg, &signed_decimal_chars(requested));
        msg.append(" уже существует");
        return Err(AppError::Conflict { reason: msg });
    }
    Ok(requested)
}

/// The new number of an edited act, when the edit changes it.
pub fn number_change(number_override: Option<i64>, current: i64) -> (r: Option<i64>)
    ensures
        r == (match number_override {
            Some(n) => if n != current { Some(n) } else { None },
            None => None,
        }),
{
    match number_override {
        Some(n) => if n != current { Some(n) } else { None },
        None => None,
    }
}

/// The number shown as "next": the counter's current value plus one.
pub fn next_act_number(current: i64) -> (n: i64)
    requires
        current < i64::MAX,
    ensures
        n == current + 1,
{
    current + 1
}

// ---------------------------------------------------------------------------
// Device checks
// ---------------------------------------------------------------------------

/// Message for a device that left the warehouse meanwhile.
pub open spec fn not_on_warehouse_message(id: i64) -> Seq<char> {
    "Устройство id="@ + signed_decimal(id as int) + " больше не на складе — обновите список и повторите."@
}

/// A device handed over from a group must still be in the warehouse.
pub fn check_on_warehouse(device_id: i64, status_id: i64, on_warehouse_status_id: i64) -> (r: Result<(), AppError>)
    ensures
        status_id == on_warehouse_status_id ==> r is Ok,
        status_id != on_warehouse_status_id ==> (r matches Err(e) && crate::error::is_conflict(e, not_on_warehouse_message(device_id))),
{
    if status_id != on_warehouse_status_id {
        let mut msg = String::new();
        msg.append("Устройство id=");
        push_all(&mut msg, &signed_decimal_chars(device_id));
        msg.append(" больше не на складе — обновите список и повторите.");
        return Err(AppError::Conflict { reason: msg });
    }
    Ok(())
}

/// Message for a device that is no longer handed out.
pub open spec fn not_in_work_message(id: i64) -> Seq<char> {
    "Устройство id="@ + signed_decimal(id as int) + " уже не в работе — возможно, оно уже возвращено"@
}

/// A returned device must currently be in work (guards a double return).
pub fn check_in_work(device_id: i64, status_id: i64, in_work_status_id: i64) -> (r: Result<(), AppError>)
    ensures
        status_id == in_work_status_id ==> r is Ok,
        status_id != in_work_status_id ==> (r matches Err(e) && crate::error::is_conflict(e, not_in_work_message(device_id))),
{
    if status_id != in_work_status_id {
        let mut msg = String::new();
        msg.append("Устройство id=");
        push_all(&mut msg, &signed_decimal_chars(device_id));
        msg.append(" уже не в работе — возможно, оно уже возвращено");
        return Err(AppError::Conflict { reason: msg });
    }
    Ok(())
}

/// Message for a returned device that the parent act never handed over.
pub open spec fn not_in_act_message(device_id: i64, number: i64) -> Seq<char> {
    "device_id="@ + signed_decimal(device_id as int) + " не принадлежит акту №"@ + signed_decimal(number as int)
}

/// Every device of a return must be a position of the parent act.
pub fn check_device_in_act(idx: usize, device_id: i64, in_act: bool, parent_number: i64) -> (r: Result<(), AppError>)
    ensures
        in_act ==> r is Ok,
        !in_act ==> (r matches Err(e) && is_validation(e, item_field(idx as int, "device_ids"@), not_in_act_message(device_id, parent_number))),
{
    if !in_act {
        let mut msg = String::new();
        msg.append("device_id=");
        push_all(&mut msg, &signed_decimal_chars(device_id));
        msg.append(" не принадлежит акту №");
        push_all(&mut msg, &signed_decimal_chars(parent_number));
        return Err(validation_owned(item_field_text(idx, "device_ids"), msg));
    }
    Ok(())
}

/// Message for a device added to a return edit that the parent never handed over.
pub open spec fn not_in_parent_message(device_id: i64) -> Seq<char> {
    "device_id="@ + signed_decimal(device_id as int) + " не принадлежит родительскому акту"@
}

/// A device added to a return edit must be a position of the parent act.
pub fn check_device_in_parent(device_id: i64, in_parent: bool) -> (r: Result<(), AppError>)
    ensures
        in_parent ==> r is Ok,
        !in_parent ==> (r matches Err(e) && is_validation(e, "items"@, not_in_parent_message(device_id))),
{
    if !in_parent {
        let mut msg = String::new();
        msg.append("device_id=");
        push_all(&mut msg, &signed_decimal_chars(device_id));
        msg.append(" не принадлежит родительскому акту");
        return Err(validation_owned(owned("items"), msg));
    }
    Ok(())
}

/// Message for removing a position whose device already came back.
pub open spec fn already_returned_message(id: i64) -> Seq<char> {
    "Устройство id="@ + signed_decimal(id as int) + " уже возвращено по акту возврата — редактирование позиции невозможно"@
}

/// The first removed device that is no longer outstanding, if any.
pub open spec fn first_not_outstanding(removed: Seq<i64>, outstanding: Seq<i64>) -> Option<i64>
    decreases removed.len(),
{
    if removed.len() == 0 {
        None
    } else if !outstanding.contains(removed[0]) {
        Some(removed[0])
    } else {
        first_not_outstanding(removed.drop_first(), outstanding)
    }
}

/// The device an edit is refused for is the first removed one that is no
/// longer out; the edit passes exactly when every removed device is still
/// out.
pub proof fn refused_removal_is_first_returned(removed: Seq<i64>, outstanding: Seq<i64>)
    ensures
        first_not_outstanding(removed, outstanding) matches Some(d) ==> exists|i: int| 0 <= i < removed.len()
            && #[trigger] removed[i] == d && !outstanding.contains(d)
            && forall|k: int| 0 <= k < i ==> outstanding.contains(#[trigger] removed[k]),
        first_not_outstanding(removed, outstanding) is None <==> forall|k: int| 0 <= k < removed.len() ==> outstanding.contains(#[trigger] removed[k]),
    decreases removed.len(),
{
    if removed.len() > 0 {
        let rest = removed.drop_first();
        refused_removal_is_first_returned(rest, outstanding);
        assert forall|k: int| 0 <= k < rest.len() implies #[trigger] rest[k] == removed[k + 1] by {}
        if outstanding.contains(removed[0]) {
            if first_not_outstanding(rest, outstanding) is Some {
                let d = first_not_outstanding(rest, outstanding)->0;
                let i = choose|i: int| 0 <= i < rest.len() && #[trigger] rest[i] == d && !outstanding.contains(d)
                    && forall|k: int| 0 <= k < i ==> outstanding.contains(#[trigger] rest[k]);
                assert(removed[i + 1] == d);
                assert forall|k: int| 0 <= k < i + 1 implies outstanding.contains(#[trigger] removed[k]) by {
                    if k > 0 {
                        assert(removed[k] == rest[k - 1]);
                    }
                }
            } else {
                assert forall|k: int| 0 <= k < removed.len() implies outstanding.contains(#[trigger] removed[k]) by {
                    if k > 0 {
                        assert(removed[k] == rest[k - 1]);
                    }
                }
            }
        } else {
            assert(removed[0] == removed[0]);
        }
    }
}

/// A handover edit may only drop positions whose device is still out; a
/// device that a return already brought back makes the whole edit fail.
pub fn check_removed_outstanding(removed: &Vec<i64>, outstanding: &Vec<i64>) -> (r: Result<(), AppError>)
    ensures
        match first_not_outstanding(removed@, outstanding@) {
            None => r is Ok,
            Some(d) => r matches Err(e) && crate::error::is_conflict(e, already_returned_message(d)),
        },
{
    let mut i: usize = 0;
    assert(removed@.subrange(0, removed@.len() as int) =~= removed@);
    while i < removed.len()
        invariant
            i <= removed.len(),
            first_not_outstanding(removed@, outstanding@)
                == first_not_outstanding(removed@.subrange(i as int, removed@.len() as int), outstanding@),
        decreases removed.len() - i,
    {
        let d = removed[i];
        assert(removed@.subrange(i as int, removed@.len() as int)[0] == d);
        if !contains_i64(outstanding, d) {
            let mut msg = String::new();
            msg.append("Устройство id=");
            push_all(&mut msg, &signed_decimal_chars(d));
            msg.append(" уже возвращено по акту возврата — редактирование позиции невозможно");
            return Err(AppError::Conflict { reason: msg });
        }
        assert(removed@.subrange(i as int, removed@.len() as int).drop_first()
            =~= removed@.subrange(i + 1, removed@.len() as int));
        i = i + 1;
    }
    assert(removed@.subrange(removed@.len() as int, removed@.len() as int) =~= Seq::<i64>::empty());
    Ok(())
}

// ---------------------------------------------------------------------------
// Item-set delta of an edit
// ---------------------------------------------------------------------------

/// The positions an edit adds, keeps and drops.
pub struct ItemDelta {
    pub added: Vec<i64>,
    pub unchanged: Vec<i64>,
    pub removed: Vec<i64>,
}

/// `v` lists exactly the set `s`, each element once.
pub open spec fn lists_set(v: Seq<i64>, s: Set<i64>) -> bool {
    v.no_duplicates() && v.to_set() == s
}

/// The position of the first `x` in `s` (meaningful when `s` holds `x`).
pub open spec fn first_index(s: Seq<i64>, x: i64) -> int
    decreases s.len(),
{
    if s.len() == 0 {
        0
    } else if s.drop_last().contains(x) {
        first_index(s.drop_last(), x)
    } else {
        s.len() - 1
    }
}

/// The items of `v` come in the order in which they first appear in `s`.
pub open spec fn ordered_as_in(v: Seq<i64>, s: Seq<i64>) -> bool {
    forall|a: int, b: int| 0 <= a < b < v.len() ==> first_index(s, #[trigger] v[a]) < first_index(s, #[trigger] v[b])
}

proof fn lemma_first_index_prefix(s: Seq<i64>, n: int, x: i64)
    requires
        0 <= n <= s.len(),
        s.subrange(0, n).contains(x),
    ensures
        first_index(s, x) == first_index(s.subrange(0, n), x),
    decreases s.len() - n,
{
    if n == s.len() {
        assert(s.subrange(0, n) =~= s);
    } else {
        let t = s.drop_last();
        assert(t.subrange(0, n) =~= s.subrange(0, n));
        let k = choose|k: int| 0 <= k < n && s.subrange(0, n)[k] == x;
        assert(t[k] == x);
        lemma_first_index_prefix(t, n, x);
    }
}

proof fn lemma_first_index_at(s: Seq<i64>, i: int)
    requires
        0 <= i < s.len(),
        !s.subrange(0, i).contains(s[i]),
    ensures
        first_index(s, s[i]) == i,
{
    let t = s.subrange(0, i + 1);
    assert(t.drop_last() =~= s.subrange(0, i));
    assert(first_index(t, s[i]) == i);
    assert(t[i] == s[i]);
    lemma_first_index_prefix(s, i + 1, s[i]);
}

/// Compares the stored devices of an act with the devices of the edit:
/// `added` = new − old, `unchanged` = old ∩ new, `removed` = old − new, each
/// listed once (added in the order of `new`, the others in that of `old`).
pub fn item_delta(old: &Vec<i64>, new: &Vec<i64>) -> (d: ItemDelta)
    ensures
        lists_set(d.added@, new@.to_set().difference(old@.to_set())),
        lists_set(d.unchanged@, old@.to_set().intersect(new@.to_set())),
        lists_set(d.removed@, old@.to_set().difference(new@.to_set())),
        ordered_as_in(d.added@, new@),
        ordered_as_in(d.unchanged@, old@),
        ordered_as_in(d.removed@, old@),
{
    let mut added: Vec<i64> = Vec::new();
    let mut i: usize = 0;
    while i < new.len()
        invariant
            i <= new.len(),
            added@.no_duplicates(),
            forall|x: i64| added@.contains(x) <==> (new@.subrange(0, i as int).contains(x) && !old@.contains(x)),
            ordered_as_in(added@, new@),
            forall|a: int| 0 <= a < added@.len() ==> first_index(new@, #[trigger] added@[a]) < i,
        decreases new.len() - i,
    {
        let x = new[i];
        let ghost prev = added@;
        proof {
            lemma_subrange_push_contains(new@, i as int);
        }
        let in_old = contains_i64(old, x);
        let in_added = contains_i64(&added, x);
        if !in_old && !in_added {
            added.push(x);
            proof {
                lemma_push_contains(prev, x);
                lemma_push_no_dup(prev, x);
                lemma_first_index_at(new@, i as int);
                assert forall|a: int, b: int| 0 <= a < b < added@.len() implies
                    first_index(new@, #[trigger] added@[a]) < first_index(new@, #[trigger] added@[b]) by {
                    assert(added@[a] == prev[a]);
                    if b < prev.len() {
                        assert(added@[b] == prev[b]);
                    }
                }
                assert forall|a: int| 0 <= a < added@.len() implies first_index(new@, #[trigger] added@[a]) < i + 1 by {
                    if a < prev.len() {
                        assert(added@[a] == prev[a]);
                    }
                }
            }
        }
        assert forall|y: i64| added@.contains(y) <==> (new@.subrange(0, i + 1).contains(y) && !old@.contains(y)) by {
            if !in_old && !in_added {
                assert(added@.contains(y) <==> (prev.contains(y) || y == x));
            } else {
                assert(added@ == prev);
            }
        }
        i = i + 1;
    }
    let mut unchanged: Vec<i64> = Vec::new();
    let mut removed: Vec<i64> = Vec::new();
    let mut k: usize = 0;
    while k < old.len()
        invariant
            k <= old.len(),
            unchanged@.no_duplicates(),
            removed@.no_duplicates(),
            forall|x: i64| unchanged@.contains(x) <==> (old@.subrange(0, k as int).contains(x) && new@.contains(x)),
            forall|x: i64| removed@.contains(x) <==> (old@.subrange(0, k as int).contains(x) && !new@.contains(x)),
            ordered_as_in(unchanged@, old@),
            ordered_as_in(removed@, old@),
            forall|a: int| 0 <= a < unchanged@.len() ==> first_index(old@, #[trigger] unchanged@[a]) < k,
            forall|a: int| 0 <= a < removed@.len() ==> first_index(old@, #[trigger] removed@[a]) < k,
        decreases old.len() - k,
    {
        let x = old[k];
        proof {
            lemma_subrange_push_contains(old@, k as int);
        }
        let ghost prev_u = unchanged@;
        let ghost prev_r = removed@;
        let in_new = contains_i64(new, x);
        if in_new {
            if !contains_i64(&unchanged, x) {
                unchanged.push(x);
                proof {
                    lemma_push_contains(prev_u, x);
                    lemma_push_no_dup(prev_u, x);
                    lemma_first_index_at(old@, k as int);
                    assert forall|a: int, b: int| 0 <= a < b < unchanged@.len() implies
                        first_index(old@, #[trigger] unchanged@[a]) < first_index(old@, #[trigger] unchanged@[b]) by {
                        assert(unchanged@[a] == prev_u[a]);
                        if b < prev_u.len() {
                            assert(unchanged@[b] == prev_u[b]);
                        }
                    }
                }
            }
        } else {
            if !contains_i64(&removed, x) {
                removed.push(x);
                proof {
                    lemma_push_contains(prev_r, x);
                    lemma_push_no_dup(prev_r, x);
                    lemma_first_index_at(old@, k as int);
                    assert forall|a: int, b: int| 0 <= a < b < removed@.len() implies
                        first_index(old@, #[trigger] removed@[a]) < first_index(old@, #[trigger] removed@[b]) by {
                        assert(removed@[a] == prev_r[a]);
                        if b < prev_r.len() {
                            assert(removed@[b] == prev_r[b]);
                        }
                    }
                }
            }
        }
        assert forall|a: int| 0 <= a < unchanged@.len() implies first_index(old@, #[trigger] unchanged@[a]) < k + 1 by {
            if a < prev_u.len() {
                assert(unchanged@[a] == prev_u[a]);
            }
        }
        assert forall|a: int| 0 <= a < removed@.len() implies first_index(old@, #[trigger] removed@[a]) < k + 1 by {
            if a < prev_r.len() {
                assert(removed@[a] == prev_r[a]);
            }
        }
        assert forall|y: i64| unchanged@.contains(y) <==> (old@.subrange(0, k + 1).contains(y) && new@.contains(y)) by {
            if unchanged@ != prev_u {
                assert(unchanged@ == prev_u.push(x));
                assert(unchanged@.contains(y) <==> (prev_u.contains(y) || y == x));
            }
        }
        assert forall|y: i64| removed@.contains(y) <==> (old@.subrange(0, k + 1).contains(y) && !new@.contains(y)) by {
            if removed@ != prev_r {
                assert(removed@ == prev_r.push(x));
                assert(removed@.contains(y) <==> (prev_r.contains(y) || y == x));
            }
        }
        k = k + 1;
    }
    proof {
        assert(new@.subrange(0, new@.len() as int) =~= new@);
        assert(old@.subrange(0, old@.len() as int) =~= old@);
        assert(added@.to_set() =~= new@.to_set().difference(old@.to_set()));
        assert(unchanged@.to_set() =~= old@.to_set().intersect(new@.to_set()));
        assert(removed@.to_set() =~= old@.to_set().difference(new@.to_set()));
    }
    ItemDelta { added, unchanged, removed }
}

proof fn lemma_subrange_push_contains(v: Seq<i64>, i: int)
    requires
        0 <= i < v.len(),
    ensures
        forall|x: i64| v.subrange(0, i + 1).contains(x) <==> (v.subrange(0, i).contains(x) || x == v[i]),
{
    assert(v.subrange(0, i + 1) =~= v.subrange(0, i).push(v[i]));
    lemma_push_contains(v.subrange(0, i), v[i]);
}

proof fn lemma_push_no_dup(v: Seq<i64>, x: i64)
    requires
        v.no_duplicates(),
        !v.contains(x),
    ensures
        v.push(x).no_duplicates(),
{
    assert forall|a: int, b: int| 0 <= a < v.push(x).len() && 0 <= b < v.push(x).len() && a != b
        implies v.push(x)[a] != v.push(x)[b] by {
        if a == v.len() as int {
            assert(v[b] == v.push(x)[b]);
        } else if b == v.len() as int {
            assert(v[a] == v.push(x)[a]);
        }
    }
}

/// The delta of an edit splits the devices exactly: what the edit keeps or
/// adds is the new set, what it keeps or drops is the old set, nothing is
/// both added and kept or both kept and dropped, and an edit that keeps the
/// same set of devices adds and drops nothing.
pub proof fn delta_partitions(old: Set<i64>, new: Set<i64>)
    ensures
        new.difference(old).union(old.intersect(new)) == new,
        old.intersect(new).union(old.difference(new)) == old,
        new.difference(old).disjoint(old.intersect(new)),
        old.intersect(new).disjoint(old.difference(new)),
        old == new ==> new.difference(old).is_empty() && old.difference(new).is_empty(),
{
    assert(new.difference(old).union(old.intersect(new)) =~= new);
    assert(old.intersect(new).union(old.difference(new)) =~= old);
    if old == new {
        assert(new.difference(old) =~= Set::<i64>::empty());
    }
}

// ---------------------------------------------------------------------------
// Per-device return rules
// ---------------------------------------------------------------------------

/// How many units of each device a return position gives back: its
/// quantity when it names a single device (legacy form), else one each.
pub fn per_device_quantity(item: &ActReturnItem) -> (q: i64)
    ensures
        q == (if item.device_ids@.len() == 0 { item.quantity } else { 1 }),
{
    if item.device_ids.len() == 0 { item.quantity } else { 1 }
}

/// Message when a return would exceed what was handed over.
pub open spec fn return_exceeds_message(device_id: i64, already: i64, per_device: i64, handed: i64) -> Seq<char> {
    "Возврат превышает выданное количество для устройства id="@ + signed_decimal(device_id as int)
        + ": уже возвращено "@ + signed_decimal(already as int) + " + текущее "@
        + signed_decimal(per_device as int) + " > выдано "@ + signed_decimal(handed as int)
}

/// Message when a legacy return does not close the position in full.
pub open spec fn legacy_partial_message(device_id: i64, needed: int, per_device: i64, already: i64) -> Seq<char> {
    "Legacy-режим возврата (без device_ids[]) поддерживает только один полный закрывающий возврат: для устройства id="@
        + signed_decimal(device_id as int) + " нужно вернуть ровно "@ + signed_decimal(needed)
        + ", а не "@ + signed_decimal(per_device as int) + " (уже возвращено "@
        + signed_decimal(already as int) + "). Используйте device_ids[] для частичных возвратов (G-12 contract)."@
}

/// The quantity rule of a return: what was already returned plus this
/// return may not exceed what was handed over; and a legacy position (no
/// device list) must close the position exactly.
pub fn check_return_quantity(
    device_id: i64,
    per_device: i64,
    already_returned: i64,
    handed_over: i64,
    legacy: bool,
) -> (r: Result<(), AppError>)
    requires
        i64::MIN <= per_device + already_returned <= i64::MAX,
        i64::MIN <= handed_over - already_returned <= i64::MAX,
    ensures
        per_device + already_returned > handed_over ==> (r matches Err(e) && is_validation(e, "items"@,
            return_exceeds_message(device_id, already_returned, per_device, handed_over))),
        per_device + already_returned <= handed_over && legacy && per_device + already_returned != handed_over
            ==> (r matches Err(e) && is_validation(e, "items"@,
            legacy_partial_message(device_id, handed_over - already_returned, per_device, already_returned))),
        r is Ok <==> (per_device + already_returned <= handed_over
            && (legacy ==> per_device + already_returned == handed_over)),
{
    if per_device + already_returned > handed_over {
        let mut msg = String::new();
        msg.append("Возврат превышает выданное количество для устройства id=");
        push_all(&mut msg, &signed_decimal_chars(device_id));
        msg.append(": уже возвращено ");
        push_all(&mut msg, &signed_decimal_chars(already_returned));
        msg.append(" + текущее ");
        push_all(&mut msg, &signed_decimal_chars(per_device));
        msg.append(" > выдано ");
        push_all(&mut msg, &signed_decimal_chars(handed_over));
        return Err(validation_owned(owned("items"), msg));
    }
    if legacy && per_device + already_returned != handed_over {
        let mut msg = String::new();
        msg.append("Legacy-режим возврата (без device_ids[]) поддерживает только один полный закрывающий возврат: для устройства id=");
        push_all(&mut msg, &signed_decimal_chars(device_id));
        msg.append(" нужно вернуть ровно ");
        push_all(&mut msg, &signed_decimal_chars(handed_over - already_returned));
        msg.append(", а не ");
        push_all(&mut msg, &signed_decimal_chars(per_device));
        msg.append(" (уже возвращено ");
        push_all(&mut msg, &signed_decimal_chars(already_returned));
        msg.append("). Используйте device_ids[] для частичных возвратов (G-12 contract).");
        return Err(validation_owned(owned("items"), msg));
    }
    Ok(())
}

/// A return never gives back more than was handed over, and a legacy
/// return always closes its position exactly.
pub proof fn accepted_return_stays_within_handover(per_device: int, already: int, handed: int, legacy: bool)
    requires
        per_device + already <= handed,
        legacy ==> per_device + already == handed,
    ensures
        already + per_device <= handed,
        legacy ==> handed - (already + per_device) == 0,
{
}

/// The condition a returned device gets: the position's own, else the bulk
/// one when "apply to all" is on.
pub fn effective_condition(own: &Option<String>, apply_to_all: bool, bulk: &Option<String>) -> (r: Option<String>)
    ensures
        match own {
            Some(c) => r matches Some(x) && x@ == c@,
            None => if apply_to_all {
                match bulk {
                    Some(b) => r matches Some(x) && x@ == b@,
                    None => r is None,
                }
            } else {
                r is None
            },
        },
{
    match own {
        Some(c) => Some(c.clone()),
        None => {
            if apply_to_all {
                match bulk {
                    Some(b) => Some(b.clone()),
                    None => None,
                }
            } else {
                None
            }
        },
    }
}

/// The location a returned device gets: the position's own, else the bulk
/// one when "apply to all" is on.
pub fn effective_location(own: Option<i64>, apply_to_all: bool, bulk: Option<i64>) -> (r: Option<i64>)
    ensures
        r == (match own {
            Some(l) => Some(l),
            None => if apply_to_all { bulk } else { None },
        }),
{
    match own {
        Some(l) => Some(l),
        None => if apply_to_all { bulk } else { None },
    }
}

/// Where a location comes from: a typed name (looked up, created if new)
/// takes priority over an id.
pub enum LocationSource {
    ByName(String),
    ById(Option<i64>),
}

/// Picks the location source: the name when one is given, else the id.
pub fn location_source(name: &Option<String>, id: Option<i64>) -> (r: LocationSource)
    ensures
        match name {
            Some(n) => r matches LocationSource::ByName(x) && x@ == n@,
            None => r matches LocationSource::ById(i) && i == id,
        },
{
    match name {
        Some(n) => LocationSource::ByName(n.clone()),
        None => LocationSource::ById(id),
    }
}

/// The names on a new return act: the submitted ones, else the parent's
/// pair swapped (the receiver gives back to the giver).
pub fn return_act_names(
    giver: &Option<String>,
    receiver: &Option<String>,
    parent_giver: &String,
    parent_receiver: &String,
) -> (r: (String, String))
    ensures
        r.0@ == (match giver { Some(g) => g@, None => parent_receiver@ }),
        r.1@ == (match receiver { Some(x) => x@, None => parent_giver@ }),
{
    let g = match giver {
        Some(g) => g.clone(),
        None => parent_receiver.clone(),
    };
    let x = match receiver {
        Some(x) => x.clone(),
        None => parent_giver.clone(),
    };
    (g, x)
}

/// The date of an act: the submitted one, else now.
pub fn act_date(submitted: Option<i64>, now: i64) -> (d: i64)
    ensures
        d == (match submitted { Some(x) => x, None => now }),
{
    match submitted {
        Some(x) => x,
        None => now,
    }
}

/// The parent row of the i-th position row of a group: none for the first,
/// the first row for the others.
pub fn item_parent_row(idx: usize, first_row: Option<i64>) -> (r: Option<i64>)
    ensures
        idx == 0 ==> r is None,
        idx != 0 ==> r == first_row,
{
    if idx == 0 { None } else { first_row }
}

/// The комплектация of a position added by an edit: the submitted one, else
/// the device's current kit.
pub fn added_complectation(items: &Vec<ActUpdateItem>, device_id: i64, kit: &Option<String>) -> (r: Option<String>)
    ensures
        match first_item_for(items@, device_id) {
            Some(i) => match items@[i].complectation_at_time {
                Some(c) => r matches Some(x) && x@ == c@,
                None => match kit { Some(k) => r matches Some(x) && x@ == k@, None => r is None },
            },
            None => match kit { Some(k) => r matches Some(x) && x@ == k@, None => r is None },
        },
{
    let mut i: usize = 0;
    while i < items.len()
        invariant
            i <= items.len(),
            forall|k: int| 0 <= k < i ==> items@[k].device_id != device_id,
            first_item_for(items@, device_id) == first_item_from(items@, device_id, i as int),
        decreases items.len() - i,
    {
        if items[i].device_id == device_id {
            match &items[i].complectation_at_time {
                Some(c) => return Some(c.clone()),
                None => {
                    return match kit {
                        Some(k) => Some(k.clone()),
                        None => None,
                    };
                },
            }
        }
        i = i + 1;
    }
    match kit {
        Some(k) => Some(k.clone()),
        None => None,
    }
}

/// The index of the first position for `device_id` at or after `i`.
pub open spec fn first_item_from(items: Seq<ActUpdateItem>, device_id: i64, i: int) -> Option<int>
    decreases items.len() - i,
{
    if i < 0 || i >= items.len() {
        None
    } else if items[i].device_id == device_id {
        Some(i)
    } else {
        first_item_from(items, device_id, i + 1)
    }
}

/// The index of the first position for `device_id`.
pub open spec fn first_item_for(items: Seq<ActUpdateItem>, device_id: i64) -> Option<int> {
    first_item_from(items, device_id, 0)
}

/// The new комплектация of a kept position: written only when one is
/// submitted and it differs from the stored one.
pub fn complectation_update(submitted: &Option<String>, stored: &Option<String>) -> (r: Option<String>)
    ensures
        match submitted {
            Some(v) => match stored {
                Some(s) => if s@ == v@ { r is None } else { r matches Some(x) && x@ == v@ },
                None => r matches Some(x) && x@ == v@,
            },
            None => r is None,
        },
{
    match submitted {
        Some(v) => match stored {
            Some(s) => {
                if crate::text::str_eq(s.as_str(), v.as_str()) {
                    None
                } else {
                    Some(v.clone())
                }
            },
            None => Some(v.clone()),
        },
        None => None,
    }
}

// ---------------------------------------------------------------------------
// Return edit: per-device targets, kept rows, safety check
// ---------------------------------------------------------------------------

/// What a return edit asks for one device.
pub struct ReturnTarget {
    pub device_id: i64,
    pub quantity: i64,
    pub condition: Option<String>,
    pub location: Option<i64>,
}

/// The last position (among the first `n`) that names device `d`.
pub open spec fn last_item_with(items: Seq<ActReturnItem>, d: i64, n: int) -> Option<int>
    decreases n,
{
    if n <= 0 {
        None
    } else if item_ids(items[n - 1].device_id, items[n - 1].device_ids@).contains(d) {
        Some(n - 1)
    } else {
        last_item_with(items, d, n - 1)
    }
}

/// `t` is what position `it` (with its resolved own location `row_loc`)
/// asks for its devices.
pub open spec fn target_from(
    t: ReturnTarget,
    it: ActReturnItem,
    row_loc: Option<i64>,
    apply_to_all: bool,
    bulk_condition: Option<String>,
    bulk_location: Option<i64>,
) -> bool {
    &&& t.quantity == (if it.device_ids@.len() == 0 { it.quantity } else { 1 })
    &&& t.location == (match row_loc {
        Some(l) => Some(l),
        None => if apply_to_all { bulk_location } else { None },
    })
    &&& match it.condition_override {
        Some(c) => t.condition matches Some(x) && x@ == c@,
        None => if apply_to_all {
            match bulk_condition {
                Some(b) => t.condition matches Some(x) && x@ == b@,
                None => t.condition is None,
            }
        } else {
            t.condition is None
        },
    }
}

/// The device ids of a list of targets.
pub open spec fn target_ids(t: Seq<ReturnTarget>) -> Seq<i64> {
    t.map_values(|e: ReturnTarget| e.device_id)
}

/// The targets `t` describe the first `n` positions: one entry per device
/// named there, taken from the last position that names it.
pub open spec fn targets_describe(
    t: Seq<ReturnTarget>,
    items: Seq<ActReturnItem>,
    n: int,
    row_locations: Seq<Option<i64>>,
    apply_to_all: bool,
    bulk_condition: Option<String>,
    bulk_location: Option<i64>,
) -> bool {
    &&& target_ids(t).no_duplicates()
    &&& forall|d: i64| target_ids(t).contains(d) <==> last_item_with(items, d, n) is Some
    &&& forall|k: int| 0 <= k < t.len() ==> (last_item_with(items, #[trigger] t[k].device_id, n) matches Some(i)
        && target_from(t[k], items[i], row_locations[i], apply_to_all, bulk_condition, bulk_location))
}

/// The index of device `d` among the targets, if present.
fn find_target(t: &Vec<ReturnTarget>, d: i64) -> (r: Option<usize>)
    ensures
        match r {
            Some(k) => k < t.len() && t@[k as int].device_id == d,
            None => !target_ids(t@).contains(d),
        },
{
    let mut k: usize = 0;
    while k < t.len()
        invariant
            k <= t.len(),
            forall|j: int| 0 <= j < k ==> t@[j].device_id != d,
        decreases t.len() - k,
    {
        if t[k].device_id == d {
            return Some(k);
        }
        k = k + 1;
    }
    proof {
        if target_ids(t@).contains(d) {
            let j = choose|j: int| 0 <= j < target_ids(t@).len() && target_ids(t@)[j] == d;
            assert(t@[j].device_id == d);
        }
    }
    None
}

/// Collects what a return edit asks per device. Positions are read in order
/// and a later position naming the same device replaces the earlier one;
/// `row_locations[i]` is the location that position `i` itself resolved to.
pub fn return_targets(
    items: &Vec<ActReturnItem>,
    apply_to_all: bool,
    bulk_condition: &Option<String>,
    bulk_location: Option<i64>,
    row_locations: &Vec<Option<i64>>,
) -> (t: Vec<ReturnTarget>)
    requires
        row_locations.len() == items.len(),
    ensures
        targets_describe(t@, items@, items@.len() as int, row_locations@, apply_to_all, *bulk_condition, bulk_location),
{
    let mut t: Vec<ReturnTarget> = Vec::new();
    let mut i: usize = 0;
    assert(target_ids(t@) =~= Seq::<i64>::empty());
    while i < items.len()
        invariant
            row_locations.len() == items.len(),
            i <= items.len(),
            targets_describe(t@, items@, i as int, row_locations@, apply_to_all, *bulk_condition, bulk_location),
        decreases items.len() - i,
    {
        let it = &items[i];
        let ids = effective_device_ids(it);
        let qty = per_device_quantity(it);
        let loc = effective_location(row_locations[i], apply_to_all, bulk_location);
        let mut q: usize = 0;
        while q < ids.len()
            invariant
                row_locations.len() == items.len(),
                i < items.len(),
                *it == items@[i as int],
                ids@ == item_ids(it.device_id, it.device_ids@),
                qty == (if it.device_ids@.len() == 0 { it.quantity } else { 1 }),
                loc == (match row_locations@[i as int] {
                    Some(l) => Some(l),
                    None => if apply_to_all { bulk_location } else { None },
                }),
                q <= ids.len(),
                target_ids(t@).no_duplicates(),
                forall|d: i64| target_ids(t@).contains(d) <==> (last_item_with(items@, d, i as int) is Some
                    || ids@.subrange(0, q as int).contains(d)),
                forall|k: int| 0 <= k < t@.len() ==> if ids@.subrange(0, q as int).contains(#[trigger] t@[k].device_id) {
                    target_from(t@[k], items@[i as int], row_locations@[i as int], apply_to_all, *bulk_condition, bulk_location)
                } else {
                    last_item_with(items@, t@[k].device_id, i as int) matches Some(j)
                        && target_from(t@[k], items@[j], row_locations@[j], apply_to_all, *bulk_condition, bulk_location)
                },
            decreases ids.len() - q,
        {
            let d = ids[q];
            let cond = effective_condition(&it.condition_override, apply_to_all, bulk_condition);
            let entry = ReturnTarget { device_id: d, quantity: qty, condition: cond, location: loc };
            let ghost entry_v = entry;
            let ghost prev = t@;
            proof {
                lemma_subrange_push_contains(ids@, q as int);
            }
            let found = find_target(&t, d);
            match found {
                Some(k) => {
                    t.set(k, entry);
                    proof {
                        assert(target_ids(t@) =~= target_ids(prev));
                        assert forall|m: int| 0 <= m < t@.len() && m != k implies t@[m] == prev[m] by {}
                    }
                },
                None => {
                    t.push(entry);
                    proof {
                        assert(target_ids(t@) =~= target_ids(prev).push(d));
                        lemma_push_contains(target_ids(prev), d);
                        lemma_push_no_dup(target_ids(prev), d);
                        assert forall|m: int| 0 <= m < prev.len() implies t@[m] == prev[m] by {}
                    }
                },
            }
            proof {
                assert forall|x: i64| target_ids(t@).contains(x) <==> (last_item_with(items@, x, i as int) is Some
                    || ids@.subrange(0, q + 1).contains(x)) by {
                    assert(ids@.subrange(0, q + 1).contains(x) <==> (ids@.subrange(0, q as int).contains(x) || x == d));
                    assert(target_ids(prev).contains(x) <==> (last_item_with(items@, x, i as int) is Some
                        || ids@.subrange(0, q as int).contains(x)));
                }
                assert forall|k: int| 0 <= k < t@.len() implies if ids@.subrange(0, q + 1).contains(#[trigger] t@[k].device_id) {
                    target_from(t@[k], items@[i as int], row_locations@[i as int], apply_to_all, *bulk_condition, bulk_location)
                } else {
                    last_item_with(items@, t@[k].device_id, i as int) matches Some(j)
                        && target_from(t@[k], items@[j], row_locations@[j], apply_to_all, *bulk_condition, bulk_location)
                } by {
                    assert(ids@.subrange(0, q + 1).contains(t@[k].device_id)
                        <==> (ids@.subrange(0, q as int).contains(t@[k].device_id) || t@[k].device_id == d));
                    if t@[k].device_id == d {
                        match found {
                            Some(fk) => {
                                if k != fk as int {
                                    assert(t@[k] == prev[k]);
                                    assert(target_ids(prev)[k] == target_ids(prev)[fk as int]);
                                }
                            },
                            None => {
                                if k < prev.len() {
                                    assert(t@[k] == prev[k]);
                                    assert(target_ids(prev)[k] == d);
                                }
                            },
                        }
                        assert(t@[k] == entry_v);
                    } else {
                        assert(k < prev.len());
                        assert(t@[k] == prev[k]);
                        assert(prev[k].device_id == t@[k].device_id);
                    }
                }
            }
            q = q + 1;
        }
        proof {
            assert(ids@.subrange(0, ids@.len() as int) =~= ids@);
            assert forall|d: i64| #[trigger] last_item_with(items@, d, i + 1) == (if ids@.contains(d) {
                Some(i as int)
            } else {
                last_item_with(items@, d, i as int)
            }) by {}
        }
        i = i + 1;
    }
    t
}

/// A kept device of a return edit needs rewriting when the edit asks for a
/// condition other than the stored one, or a location other than the
/// device's current one (asking nothing changes nothing).
pub fn retained_needs_change(
    condition: &Option<String>,
    stored_condition: &Option<String>,
    location: Option<i64>,
    current_location: Option<i64>,
) -> (b: bool)
    ensures
        b == ((match condition {
            Some(c) => !(stored_condition matches Some(s) && s@ == c@),
            None => false,
        }) || (match location {
            Some(l) => current_location != Some(l),
            None => false,
        })),
{
    let condition_changed = match condition {
        Some(c) => match stored_condition {
            Some(s) => !crate::text::str_eq(s.as_str(), c.as_str()),
            None => true,
        },
        None => false,
    };
    let location_changed = match location {
        Some(l) => match current_location {
            Some(x) => x != l,
            None => true,
        },
        None => false,
    };
    condition_changed || location_changed
}

/// The fields of a device snapshot that the edit-safety check compares.
pub struct SnapshotFields {
    pub status_id: Option<i64>,
    pub location_id: Option<i64>,
    pub state: Option<String>,
}

/// The `status_id` (integer), `location_id` (integer) and `state` (string)
/// members of the JSON object in `json` (`None` for a member that is absent
/// or of another type); `None` as a whole when `json` is not valid JSON.
pub uninterp spec fn json_snapshot(json: Seq<char>) -> Option<(Option<i64>, Option<i64>, Option<Seq<char>>)>;

/// Calls `serde_json::from_str::<serde_json::Value>` and reads
/// `get("status_id").and_then(as_i64)`, `get("location_id").and_then(as_i64)`
/// and `get("state").and_then(as_str)`; a parse failure gives its message.
/// The fields are the named `json_snapshot` of the text.
#[verifier::external_body]
fn parse_snapshot(json: &str) -> (r: Result<SnapshotFields, String>)
    ensures
        match json_snapshot(json@) {
            Some((s, l, st)) => r matches Ok(f) && f.status_id == s && f.location_id == l && match st {
                Some(x) => f.state matches Some(y) && y@ == x,
                None => f.state is None,
            },
            None => r is Err,
        },
{
    match serde_json::from_str::<serde_json::Value>(json) {
        Ok(v) => Ok(SnapshotFields {
            status_id: v.get("status_id").and_then(|x| x.as_i64()),
            location_id: v.get("location_id").and_then(|x| x.as_i64()),
            state: v.get("state").and_then(|x| x.as_str()).map(|x| x.to_string()),
        }),
        Err(e) => Err(e.to_string()),
    }
}

/// The device is still as this return left it: same status, location and
/// state as the snapshot taken after the return's own change.
pub open spec fn unchanged_since(
    expected: (Option<i64>, Option<i64>, Option<Seq<char>>),
    status_id: i64,
    location_id: Option<i64>,
    state: Option<Seq<char>>,
) -> bool {
    expected.0 == Some(status_id) && expected.1 == location_id && expected.2 == state
}

/// Message for a device changed after the return.
pub open spec fn changed_after_return_message(id: i64) -> Seq<char> {
    "Устройство id="@ + signed_decimal(id as int)
        + " изменилось после этого возврата (другой акт или изменение вручную) — редактирование строки невозможно"@
}

/// Before a return edit un-returns or rewrites a device: the device must
/// still be exactly as this return's last change left it (`after_json`),
/// otherwise a later act or a manual edit would be overwritten. A snapshot
/// that does not parse is an internal error.
pub fn check_unchanged_since_return(
    device_id: i64,
    after_json: &str,
    status_id: i64,
    location_id: Option<i64>,
    state: &Option<String>,
) -> (r: Result<(), AppError>)
    ensures
        match json_snapshot(after_json@) {
            None => r matches Err(AppError::Internal { .. }),
            Some(exp) => if unchanged_since(exp, status_id, location_id, match state { Some(s) => Some(s@), None => None }) {
                r is Ok
            } else {
                r matches Err(e) && crate::error::is_conflict(e, changed_after_return_message(device_id))
            },
        },
{
    let f = match parse_snapshot(after_json) {
        Ok(f) => f,
        Err(msg) => {
            let mut chain = String::new();
            chain.append("update_return: corrupt after_json for device ");
            push_all(&mut chain, &signed_decimal_chars(device_id));
            chain.append(": ");
            chain.append(msg.as_str());
            return Err(AppError::Internal { source_chain: chain });
        },
    };
    let status_same = match f.status_id {
        Some(s) => s == status_id,
        None => false,
    };
    let location_same = match (f.location_id, location_id) {
        (Some(a), Some(b)) => a == b,
        (None, None) => true,
        _ => false,
    };
    let state_same = match (&f.state, state) {
        (Some(a), Some(b)) => crate::text::str_eq(a.as_str(), b.as_str()),
        (None, None) => true,
        _ => false,
    };
    if status_same && location_same && state_same {
        Ok(())
    } else {
        let mut msg = String::new();
        msg.append("Устройство id=");
        push_all(&mut msg, &signed_decimal_chars(device_id));
        msg.append(" изменилось после этого возврата (другой акт или изменение вручную) — редактирование строки невозможно");
        Err(AppError::Conflict { reason: msg })
    }
}

// ---------------------------------------------------------------------------
// What an edit writes
// ---------------------------------------------------------------------------

/// One write of an act edit, in the order the edit runs them.
#[derive(Clone, Debug, PartialEq, Eq)]
pub enum ActWrite {
    /// Hand the device out: status "in work" at `location`, and a new
    /// position (quantity 1) with its condition and комплектация.
    HandOut { device_id: i64, location: Option<i64>, condition: Option<String>, complectation: Option<String> },
    /// Rewrite the комплектация of a kept position.
    SetComplectation { device_id: i64, complectation: String },
    /// Restore the device from its latest audit snapshot and drop its position.
    Restore { device_id: i64 },
    /// Take the device back to the warehouse and add its return position.
    Return { device_id: i64, quantity: i64, condition: Option<String>, location: Option<i64> },
    /// Re-apply the warehouse state with a new condition and location, and
    /// rewrite the position's condition.
    Rewrite { device_id: i64, condition: Option<String>, location: Option<i64> },
    /// Recompute whether the handover `act_id` is fully returned.
    RecomputeArchived { act_id: i64 },
}

/// An `ActWrite` as plain values.
pub enum ActWriteView {
    HandOut { device_id: i64, location: Option<i64>, condition: Option<Seq<char>>, complectation: Option<Seq<char>> },
    SetComplectation { device_id: i64, complectation: Seq<char> },
    Restore { device_id: i64 },
    Return { device_id: i64, quantity: i64, condition: Option<Seq<char>>, location: Option<i64> },
    Rewrite { device_id: i64, condition: Option<Seq<char>>, location: Option<i64> },
    RecomputeArchived { act_id: i64 },
}

/// The text of an optional string.
pub open spec fn opt_chars(o: Option<String>) -> Option<Seq<char>> {
    match o {
        Some(s) => Some(s@),
        None => None,
    }
}

impl View for ActWrite {
    type V = ActWriteView;

    open spec fn view(&self) -> ActWriteView {
        match self {
            ActWrite::HandOut { device_id, location, condition, complectation } => ActWriteView::HandOut {
                device_id: *device_id,
                location: *location,
                condition: opt_chars(*condition),
                complectation: opt_chars(*complectation),
            },
            ActWrite::SetComplectation { device_id, complectation } =>
                ActWriteView::SetComplectation { device_id: *device_id, complectation: complectation@ },
            ActWrite::Restore { device_id } => ActWriteView::Restore { device_id: *device_id },
            ActWrite::Return { device_id, quantity, condition, location } => ActWriteView::Return {
                device_id: *device_id,
                quantity: *quantity,
                condition: opt_chars(*condition),
                location: *location,
            },
            ActWrite::Rewrite { device_id, condition, location } => ActWriteView::Rewrite {
                device_id: *device_id,
                condition: opt_chars(*condition),
                location: *location,
            },
            ActWrite::RecomputeArchived { act_id } => ActWriteView::RecomputeArchived { act_id: *act_id },
        }
    }
}

/// The writes as plain values.
pub open spec fn writes_view(w: Seq<ActWrite>) -> Seq<ActWriteView> {
    w.map_values(|x: ActWrite| x@)
}

/// The комплектация an edit submits for device `d`: that of its first
/// position naming `d`.
pub open spec fn submitted_complectation(items: Seq<ActUpdateItem>, d: i64) -> Option<Seq<char>> {
    match first_item_for(items, d) {
        Some(i) => opt_chars(items[i].complectation_at_time),
        None => None,
    }
}

/// The комплектация of an added position: the submitted one, else the
/// device's kit.
pub open spec fn added_complectation_spec(items: Seq<ActUpdateItem>, d: i64, kit: Option<Seq<char>>) -> Option<Seq<char>> {
    match submitted_complectation(items, d) {
        Some(c) => Some(c),
        None => kit,
    }
}

/// The hand-outs of the devices an edit adds; `before[i]` is the state and
/// kit of `added[i]` before the edit.
pub open spec fn hand_outs(
    added: Seq<i64>,
    before: Seq<(Option<String>, Option<String>)>,
    items: Seq<ActUpdateItem>,
    location: Option<i64>,
) -> Seq<ActWriteView> {
    Seq::new(added.len(), |i: int| ActWriteView::HandOut {
        device_id: added[i],
        location,
        condition: opt_chars(before[i].0),
        complectation: added_complectation_spec(items, added[i], opt_chars(before[i].1)),
    })
}

/// The комплектация rewrites of kept positions: only where one is
/// submitted and it differs from the stored one (`stored[i]` for `kept[i]`).
pub open spec fn complectation_changes(kept: Seq<i64>, stored: Seq<Option<String>>, items: Seq<ActUpdateItem>) -> Seq<ActWriteView>
    decreases kept.len(),
{
    if kept.len() == 0 {
        Seq::empty()
    } else {
        let prev = complectation_changes(kept.drop_last(), stored.drop_last(), items);
        let d = kept.last();
        match submitted_complectation(items, d) {
            Some(v) => if opt_chars(stored.last()) == Some(v) {
                prev
            } else {
                prev.push(ActWriteView::SetComplectation { device_id: d, complectation: v })
            },
            None => prev,
        }
    }
}

/// One restore per device, in order.
pub open spec fn restores(removed: Seq<i64>) -> Seq<ActWriteView> {
    Seq::new(removed.len(), |i: int| ActWriteView::Restore { device_id: removed[i] })
}

/// The archive recompute of `act_id`, when the set of devices changed.
pub open spec fn recompute_if(changed: bool, act_id: i64) -> Seq<ActWriteView> {
    if changed { seq![ActWriteView::RecomputeArchived { act_id }] } else { Seq::empty() }
}

/// What a handover edit writes: hand out the added devices, rewrite the
/// комплектация of kept positions that change, restore the removed
/// devices, and recompute the act's archive flag when devices were added
/// or removed.
pub open spec fn edit_writes(
    act_id: i64,
    added: Seq<i64>,
    before: Seq<(Option<String>, Option<String>)>,
    kept: Seq<i64>,
    stored: Seq<Option<String>>,
    removed: Seq<i64>,
    items: Seq<ActUpdateItem>,
    location: Option<i64>,
) -> Seq<ActWriteView> {
    hand_outs(added, before, items, location) + complectation_changes(kept, stored, items) + restores(removed)
        + recompute_if(added.len() > 0 || removed.len() > 0, act_id)
}

fn clone_opt(o: &Option<String>) -> (r: Option<String>)
    ensures
        opt_chars(r) == opt_chars(*o),
{
    match o {
        Some(x) => Some(x.clone()),
        None => None,
    }
}

fn submitted_complectation_of(items: &Vec<ActUpdateItem>, d: i64) -> (r: Option<String>)
    ensures
        opt_chars(r) == submitted_complectation(items@, d),
{
    let mut i: usize = 0;
    while i < items.len()
        invariant
            i <= items.len(),
            forall|k: int| 0 <= k < i ==> items@[k].device_id != d,
            first_item_for(items@, d) == first_item_from(items@, d, i as int),
        decreases items.len() - i,
    {
        if items[i].device_id == d {
            return match &items[i].complectation_at_time {
                Some(c) => Some(c.clone()),
                None => None,
            };
        }
        i = i + 1;
    }
    None
}

fn push_restores(w: &mut Vec<ActWrite>, removed: &Vec<i64>)
    ensures
        writes_view(final(w)@) == writes_view(old(w)@) + restores(removed@),
{
    let ghost w0 = writes_view(w@);
    let mut i: usize = 0;
    while i < removed.len()
        invariant
            i <= removed.len(),
            writes_view(w@) == w0 + restores(removed@.subrange(0, i as int)),
        decreases removed.len() - i,
    {
        let ghost pre = w@;
        w.push(ActWrite::Restore { device_id: removed[i] });
        assert(writes_view(w@) =~= writes_view(pre).push(ActWriteView::Restore { device_id: removed@[i as int] }));
        assert(restores(removed@.subrange(0, i + 1)) =~= restores(removed@.subrange(0, i as int))
            .push(ActWriteView::Restore { device_id: removed@[i as int] }));
        assert(writes_view(w@) =~= w0 + restores(removed@.subrange(0, i + 1)));
        i = i + 1;
    }
    assert(removed@.subrange(0, removed.len() as int) =~= removed@);
}

/// Plans the writes of a handover edit. `added`, `kept` and `removed` come
/// from `item_delta`; `before[i]` is the state and kit of `added[i]` before
/// the edit, `stored[i]` the stored комплектация of `kept[i]`, `location`
/// the resolved location of the act.
pub fn edit_plan(
    act_id: i64,
    added: &Vec<i64>,
    before: &Vec<(Option<String>, Option<String>)>,
    kept: &Vec<i64>,
    stored: &Vec<Option<String>>,
    removed: &Vec<i64>,
    items: &Vec<ActUpdateItem>,
    location: Option<i64>,
) -> (w: Vec<ActWrite>)
    requires
        before.len() == added.len(),
        stored.len() == kept.len(),
    ensures
        writes_view(w@) == edit_writes(act_id, added@, before@, kept@, stored@, removed@, items@, location),
{
    let mut w: Vec<ActWrite> = Vec::new();
    let mut i: usize = 0;
    while i < added.len()
        invariant
            before.len() == added.len(),
            i <= added.len(),
            writes_view(w@) == hand_outs(added@.subrange(0, i as int), before@.subrange(0, i as int), items@, location),
        decreases added.len() - i,
    {
        let d = added[i];
        let sub = submitted_complectation_of(items, d);
        let complectation = match sub {
            Some(c) => Some(c),
            None => clone_opt(&before[i].1),
        };
        let ghost pre = w@;
        let ghost cv = opt_chars(complectation);
        let condition = clone_opt(&before[i].0);
        let ghost dv = opt_chars(condition);
        w.push(ActWrite::HandOut { device_id: d, location, condition, complectation });
        assert(writes_view(w@) =~= writes_view(pre).push(ActWriteView::HandOut {
            device_id: d, location, condition: dv, complectation: cv,
        }));
        assert(writes_view(w@) =~= hand_outs(added@.subrange(0, i + 1), before@.subrange(0, i + 1), items@, location));
        i = i + 1;
    }
    assert(added@.subrange(0, added.len() as int) =~= added@);
    assert(before@.subrange(0, before.len() as int) =~= before@);
    let ghost w1 = writes_view(w@);
    let mut k: usize = 0;
    while k < kept.len()
        invariant
            stored.len() == kept.len(),
            k <= kept.len(),
            w1 == hand_outs(added@, before@, items@, location),
            writes_view(w@) == w1 + complectation_changes(kept@.subrange(0, k as int), stored@.subrange(0, k as int), items@),
        decreases kept.len() - k,
    {
        let d = kept[k];
        assert(kept@.subrange(0, k + 1).drop_last() =~= kept@.subrange(0, k as int));
        assert(stored@.subrange(0, k + 1).drop_last() =~= stored@.subrange(0, k as int));
        let sub = submitted_complectation_of(items, d);
        match sub {
            Some(v) => {
                let same = match &stored[k] {
                    Some(st) => crate::text::str_eq(st.as_str(), v.as_str()),
                    None => false,
                };
                if !same {
                    let ghost pre = writes_view(w@);
                    let ghost vv = v@;
                    w.push(ActWrite::SetComplectation { device_id: d, complectation: v });
                    assert(writes_view(w@) =~= pre.push(ActWriteView::SetComplectation { device_id: d, complectation: vv }));
                }
            },
            None => {},
        }
        k = k + 1;
    }
    assert(kept@.subrange(0, kept.len() as int) =~= kept@);
    assert(stored@.subrange(0, stored.len() as int) =~= stored@);
    push_restores(&mut w, removed);
    if added.len() > 0 || removed.len() > 0 {
        let ghost pre = writes_view(w@);
        w.push(ActWrite::RecomputeArchived { act_id });
        assert(writes_view(w@) =~= pre + recompute_if(true, act_id));
    } else {
        assert(writes_view(w@) =~= writes_view(w@) + recompute_if(false, act_id));
    }
    w
}

/// The index of the first target for device `d` at or after `i`.
pub open spec fn first_target_from(t: Seq<ReturnTarget>, d: i64, i: int) -> Option<int>
    decreases t.len() - i,
{
    if i < 0 || i >= t.len() {
        None
    } else if t[i].device_id == d {
        Some(i)
    } else {
        first_target_from(t, d, i + 1)
    }
}

/// What a return edit asks for device `d`: quantity, condition and
/// location of its target, or one piece with nothing asked when it has none.
pub open spec fn target_of(t: Seq<ReturnTarget>, d: i64) -> (i64, Option<Seq<char>>, Option<i64>) {
    match first_target_from(t, d, 0) {
        Some(i) => (t[i].quantity, opt_chars(t[i].condition), t[i].location),
        None => (1, None, None),
    }
}

/// The returns of the devices a return edit adds.
pub open spec fn returns_of(added: Seq<i64>, t: Seq<ReturnTarget>) -> Seq<ActWriteView> {
    Seq::new(added.len(), |i: int| ActWriteView::Return {
        device_id: added[i],
        quantity: target_of(t, added[i]).0,
        condition: target_of(t, added[i]).1,
        location: target_of(t, added[i]).2,
    })
}

/// A kept device needs rewriting when a condition other than the stored one
/// or a location other than its current one is asked.
pub open spec fn needs_change(condition: Option<Seq<char>>, stored: Option<Seq<char>>, location: Option<i64>, current: Option<i64>) -> bool {
    (condition is Some && stored != condition) || (location is Some && current != location)
}

/// The rewrites of kept devices that change (`state[i]` is the stored
/// condition and current location of `kept[i]`).
pub open spec fn rewrites_of(kept: Seq<i64>, state: Seq<(Option<String>, Option<i64>)>, t: Seq<ReturnTarget>) -> Seq<ActWriteView>
    decreases kept.len(),
{
    if kept.len() == 0 {
        Seq::empty()
    } else {
        let prev = rewrites_of(kept.drop_last(), state.drop_last(), t);
        let d = kept.last();
        let g = target_of(t, d);
        if needs_change(g.1, opt_chars(state.last().0), g.2, state.last().1) {
            prev.push(ActWriteView::Rewrite { device_id: d, condition: g.1, location: g.2 })
        } else {
            prev
        }
    }
}

/// What a return edit writes: restore the removed devices, return the added
/// ones, rewrite the kept ones that change, and recompute the parent's
/// archive flag when devices were added or removed.
pub open spec fn return_edit_writes(
    parent_id: i64,
    removed: Seq<i64>,
    added: Seq<i64>,
    kept: Seq<i64>,
    state: Seq<(Option<String>, Option<i64>)>,
    t: Seq<ReturnTarget>,
) -> Seq<ActWriteView> {
    restores(removed) + returns_of(added, t) + rewrites_of(kept, state, t)
        + recompute_if(added.len() > 0 || removed.len() > 0, parent_id)
}

fn asked_for(t: &Vec<ReturnTarget>, d: i64) -> (r: (i64, Option<String>, Option<i64>))
    ensures
        (r.0, opt_chars(r.1), r.2) == target_of(t@, d),
{
    let mut i: usize = 0;
    while i < t.len()
        invariant
            i <= t.len(),
            first_target_from(t@, d, 0) == first_target_from(t@, d, i as int),
        decreases t.len() - i,
    {
        if t[i].device_id == d {
            return (t[i].quantity, clone_opt(&t[i].condition), t[i].location);
        }
        i = i + 1;
    }
    (1, None, None)
}

/// Plans the writes of a return edit. `removed`, `added` and `kept` come
/// from `item_delta`; `state[i]` is the stored condition and the current
/// location of `kept[i]`; `targets` come from `return_targets`.
pub fn return_edit_plan(
    parent_id: i64,
    removed: &Vec<i64>,
    added: &Vec<i64>,
    kept: &Vec<i64>,
    state: &Vec<(Option<String>, Option<i64>)>,
    targets: &Vec<ReturnTarget>,
) -> (w: Vec<ActWrite>)
    requires
        state.len() == kept.len(),
    ensures
        writes_view(w@) == return_edit_writes(parent_id, removed@, added@, kept@, state@, targets@),
{
    let mut w: Vec<ActWrite> = Vec::new();
    push_restores(&mut w, removed);
    assert(writes_view(w@) =~= restores(removed@));
    let ghost w1 = writes_view(w@);
    let mut i: usize = 0;
    while i < added.len()
        invariant
            i <= added.len(),
            w1 == restores(removed@),
            writes_view(w@) == w1 + returns_of(added@.subrange(0, i as int), targets@),
        decreases added.len() - i,
    {
        let d = added[i];
        let (q, c, l) = asked_for(targets, d);
        let ghost pre = w@;
        let ghost cv = opt_chars(c);
        w.push(ActWrite::Return { device_id: d, quantity: q, condition: c, location: l });
        assert(writes_view(w@) =~= writes_view(pre).push(ActWriteView::Return {
            device_id: d, quantity: q, condition: cv, location: l,
        }));
        assert(returns_of(added@.subrange(0, i + 1), targets@) =~= returns_of(added@.subrange(0, i as int), targets@)
            .push(ActWriteView::Return { device_id: d, quantity: q, condition: cv, location: l }));
        i = i + 1;
    }
    assert(added@.subrange(0, added.len() as int) =~= added@);
    let ghost w2 = writes_view(w@);
    let mut k: usize = 0;
    while k < kept.len()
        invariant
            state.len() == kept.len(),
            k <= kept.len(),
            w2 == restores(removed@) + returns_of(added@, targets@),
            writes_view(w@) == w2 + rewrites_of(kept@.subrange(0, k as int), state@.subrange(0, k as int), targets@),
        decreases kept.len() - k,
    {
        let d = kept[k];
        assert(kept@.subrange(0, k + 1).drop_last() =~= kept@.subrange(0, k as int));
        assert(state@.subrange(0, k + 1).drop_last() =~= state@.subrange(0, k as int));
        let (_q, c, l) = asked_for(targets, d);
        if retained_needs_change(&c, &state[k].0, l, state[k].1) {
            let ghost pre = w@;
            let ghost cv = opt_chars(c);
            w.push(ActWrite::Rewrite { device_id: d, condition: c, location: l });
            assert(writes_view(w@) =~= writes_view(pre).push(ActWriteView::Rewrite { device_id: d, condition: cv, location: l }));
        }
        k = k + 1;
    }
    assert(kept@.subrange(0, kept.len() as int) =~= kept@);
    assert(state@.subrange(0, state.len() as int) =~= state@);
    if added.len() > 0 || removed.len() > 0 {
        let ghost pre = writes_view(w@);
        w.push(ActWrite::RecomputeArchived { act_id: parent_id });
        assert(writes_view(w@) =~= pre + recompute_if(true, parent_id));
    } else {
        assert(writes_view(w@) =~= writes_view(w@) + recompute_if(false, parent_id));
    }
    w
}

/// The returns one position of a new return act writes: each of its
/// devices goes back with the position's per-device quantity, condition and
/// location (`row_loc` is the location the position itself resolved to).
pub open spec fn position_returns(
    it: ActReturnItem,
    apply_to_all: bool,
    bulk_condition: Option<String>,
    bulk_location: Option<i64>,
    row_loc: Option<i64>,
) -> Seq<ActWriteView> {
    let ids = item_ids(it.device_id, it.device_ids@);
    let q = if it.device_ids@.len() == 0 { it.quantity } else { 1 };
    let cond = match it.condition_override {
        Some(c) => Some(c@),
        None => if apply_to_all { opt_chars(bulk_condition) } else { None },
    };
    let loc = match row_loc {
        Some(l) => Some(l),
        None => if apply_to_all { bulk_location } else { None },
    };
    Seq::new(ids.len(), |j: int| ActWriteView::Return { device_id: ids[j], quantity: q, condition: cond, location: loc })
}

/// The returns of the first `n` positions, in order.
pub open spec fn positions_returns(
    items: Seq<ActReturnItem>,
    n: int,
    apply_to_all: bool,
    bulk_condition: Option<String>,
    bulk_location: Option<i64>,
    row_locations: Seq<Option<i64>>,
) -> Seq<ActWriteView>
    decreases n,
{
    if n <= 0 {
        Seq::empty()
    } else {
        positions_returns(items, n - 1, apply_to_all, bulk_condition, bulk_location, row_locations)
            + position_returns(items[n - 1], apply_to_all, bulk_condition, bulk_location, row_locations[n - 1])
    }
}

/// What a new return act writes: every position's devices go back, in
/// order, then the parent's archive flag is recomputed.
pub open spec fn return_writes(
    parent_id: i64,
    items: Seq<ActReturnItem>,
    apply_to_all: bool,
    bulk_condition: Option<String>,
    bulk_location: Option<i64>,
    row_locations: Seq<Option<i64>>,
) -> Seq<ActWriteView> {
    positions_returns(items, items.len() as int, apply_to_all, bulk_condition, bulk_location, row_locations)
        + seq![ActWriteView::RecomputeArchived { act_id: parent_id }]
}

/// Plans the writes of a new return against handover `parent_id`;
/// `row_locations[i]` is the location position `i` resolved to.
pub fn return_plan(
    parent_id: i64,
    items: &Vec<ActReturnItem>,
    apply_to_all: bool,
    bulk_condition: &Option<String>,
    bulk_location: Option<i64>,
    row_locations: &Vec<Option<i64>>,
) -> (w: Vec<ActWrite>)
    requires
        row_locations.len() == items.len(),
    ensures
        writes_view(w@) == return_writes(parent_id, items@, apply_to_all, *bulk_condition, bulk_location, row_locations@),
{
    let mut w: Vec<ActWrite> = Vec::new();
    let mut i: usize = 0;
    while i < items.len()
        invariant
            row_locations.len() == items.len(),
            i <= items.len(),
            writes_view(w@) == positions_returns(items@, i as int, apply_to_all, *bulk_condition, bulk_location, row_locations@),
        decreases items.len() - i,
    {
        let it = &items[i];
        let ids = effective_device_ids(it);
        let q = per_device_quantity(it);
        let loc = effective_location(row_locations[i], apply_to_all, bulk_location);
        let ghost w0 = writes_view(w@);
        let ghost seg = position_returns(items@[i as int], apply_to_all, *bulk_condition, bulk_location, row_locations@[i as int]);
        let mut j: usize = 0;
        while j < ids.len()
            invariant
                j <= ids.len(),
                ids@ == item_ids(it.device_id, it.device_ids@),
                *it == items@[i as int],
                seg == position_returns(items@[i as int], apply_to_all, *bulk_condition, bulk_location, row_locations@[i as int]),
                seg.len() == ids@.len(),
                writes_view(w@) == w0 + seg.subrange(0, j as int),
                q == (if it.device_ids@.len() == 0 { it.quantity } else { 1 }),
                loc == (match row_locations@[i as int] {
                    Some(l) => Some(l),
                    None => if apply_to_all { bulk_location } else { None },
                }),
            decreases ids.len() - j,
        {
            let cond = effective_condition(&it.condition_override, apply_to_all, bulk_condition);
            let ghost pre = w@;
            let ghost cv = opt_chars(cond);
            w.push(ActWrite::Return { device_id: ids[j], quantity: q, condition: cond, location: loc });
            assert(writes_view(w@) =~= writes_view(pre).push(ActWriteView::Return {
                device_id: ids@[j as int], quantity: q, condition: cv, location: loc,
            }));
            assert(seg[j as int] == ActWriteView::Return { device_id: ids@[j as int], quantity: q, condition: cv, location: loc });
            assert(seg.subrange(0, j + 1) =~= seg.subrange(0, j as int).push(seg[j as int]));
            j = j + 1;
        }
        assert(seg.subrange(0, seg.len() as int) =~= seg);
        i = i + 1;
    }
    let ghost pre = writes_view(w@);
    w.push(ActWrite::RecomputeArchived { act_id: parent_id });
    assert(writes_view(w@) =~= pre + seq![ActWriteView::RecomputeArchived { act_id: parent_id }]);
    w
}

// ---------------------------------------------------------------------------
// Deletion
// ---------------------------------------------------------------------------

/// One step of a soft deletion, in the order they run.
#[derive(Clone, Copy, Debug, PartialEq, Eq, Structural)]
pub enum DeleteStep {
    /// Restore every device the act changed, from the audit trail.
    Undo { act_id: i64 },
    /// Mark the act deleted (optimistic lock on `version`).
    SoftDelete { act_id: i64, version: i64 },
    /// Recompute whether the parent handover is fully returned.
    RecomputeParent { parent_id: i64 },
    /// Record the deletion; `cascade_from` names the handover that caused it.
    Audit { act_id: i64, cascade_from: Option<i64> },
}

/// The steps that delete the returns `rets` (`(id, version)`, oldest first)
/// of handover `parent`, newest first.
pub open spec fn cascade_steps(rets: Seq<(i64, i64)>, parent: i64) -> Seq<DeleteStep>
    decreases rets.len(),
{
    if rets.len() == 0 {
        Seq::empty()
    } else {
        let r = rets.last();
        seq![
            DeleteStep::Undo { act_id: r.0 },
            DeleteStep::SoftDelete { act_id: r.0, version: r.1 },
            DeleteStep::Audit { act_id: r.0, cascade_from: Some(parent) },
        ] + cascade_steps(rets.drop_last(), parent)
    }
}

/// The steps of deleting `act`: a handover first undoes and deletes its
/// returns, last one first, then itself; a return undoes and deletes itself
/// and then has its parent's archived flag recomputed.
pub open spec fn delete_steps(act: ActState, children: Seq<(i64, i64)>) -> Seq<DeleteStep> {
    match act.act_type {
        ActType::Handover => cascade_steps(children, act.id) + seq![
            DeleteStep::Undo { act_id: act.id },
            DeleteStep::SoftDelete { act_id: act.id, version: act.version },
            DeleteStep::Audit { act_id: act.id, cascade_from: None },
        ],
        ActType::Return => seq![
            DeleteStep::Undo { act_id: act.id },
            DeleteStep::SoftDelete { act_id: act.id, version: act.version },
        ] + (match act.parent_act_id {
            Some(p) => seq![DeleteStep::RecomputeParent { parent_id: p }],
            None => Seq::empty(),
        }) + seq![DeleteStep::Audit { act_id: act.id, cascade_from: None }],
    }
}

proof fn lemma_cascade_steps(rets: Seq<(i64, i64)>, parent: i64)
    ensures
        cascade_steps(rets, parent).len() == 3 * rets.len(),
        forall|k: int| 0 <= k < rets.len() ==> {
            let at = 3 * (rets.len() - 1 - k);
            &&& cascade_steps(rets, parent)[at] == DeleteStep::Undo { act_id: (#[trigger] rets[k]).0 }
            &&& cascade_steps(rets, parent)[at + 1] == DeleteStep::SoftDelete { act_id: rets[k].0, version: rets[k].1 }
            &&& cascade_steps(rets, parent)[at + 2] == DeleteStep::Audit { act_id: rets[k].0, cascade_from: Some(parent) }
        },
    decreases rets.len(),
{
    if rets.len() > 0 {
        let p = rets.drop_last();
        lemma_cascade_steps(p, parent);
        let r = rets.last();
        let head = seq![
            DeleteStep::Undo { act_id: r.0 },
            DeleteStep::SoftDelete { act_id: r.0, version: r.1 },
            DeleteStep::Audit { act_id: r.0, cascade_from: Some(parent) },
        ];
        let c = cascade_steps(rets, parent);
        let cp = cascade_steps(p, parent);
        assert(c == head + cp);
        assert forall|k: int| 0 <= k < rets.len() implies {
            let at = 3 * (rets.len() - 1 - k);
            &&& c[at] == DeleteStep::Undo { act_id: (#[trigger] rets[k]).0 }
            &&& c[at + 1] == DeleteStep::SoftDelete { act_id: rets[k].0, version: rets[k].1 }
            &&& c[at + 2] == DeleteStep::Audit { act_id: rets[k].0, cascade_from: Some(parent) }
        } by {
            if k < p.len() {
                assert(p[k] == rets[k]);
                let at = 3 * (rets.len() - 1 - k);
                assert(at == 3 + 3 * (p.len() - 1 - k));
                assert(c[at] == cp[at - 3]);
                assert(c[at + 1] == cp[at - 2]);
                assert(c[at + 2] == cp[at - 1]);
            } else {
                assert(rets[k] == r);
            }
        }
    }
}

/// Deleting a handover deletes each of its returns, newest first, before
/// the handover itself; every act is undone, then marked deleted with its
/// version, then audited (a return of a deleted handover naming it as the
/// cause). Deleting a return undoes and deletes it, recomputes its parent
/// when it has one, and audits it last.
pub proof fn deletion_undoes_before_deleting(act: ActState, children: Seq<(i64, i64)>)
    ensures
        act.act_type == ActType::Handover ==> {
            let st = delete_steps(act, children);
            let n = children.len() as int;
            &&& st.len() == 3 * n + 3
            &&& forall|k: int| 0 <= k < n ==> {
                let at = 3 * (n - 1 - k);
                &&& st[at] == DeleteStep::Undo { act_id: (#[trigger] children[k]).0 }
                &&& st[at + 1] == DeleteStep::SoftDelete { act_id: children[k].0, version: children[k].1 }
                &&& st[at + 2] == DeleteStep::Audit { act_id: children[k].0, cascade_from: Some(act.id) }
            }
            &&& st[3 * n] == DeleteStep::Undo { act_id: act.id }
            &&& st[3 * n + 1] == DeleteStep::SoftDelete { act_id: act.id, version: act.version }
            &&& st[3 * n + 2] == DeleteStep::Audit { act_id: act.id, cascade_from: None }
        },
        act.act_type == ActType::Return ==> {
            let st = delete_steps(act, children);
            &&& st[0] == DeleteStep::Undo { act_id: act.id }
            &&& st[1] == DeleteStep::SoftDelete { act_id: act.id, version: act.version }
            &&& st.last() == DeleteStep::Audit { act_id: act.id, cascade_from: None }
            &&& st.len() == (if act.parent_act_id is Some { 4int } else { 3int })
            &&& (act.parent_act_id matches Some(p) ==> st[2] == DeleteStep::RecomputeParent { parent_id: p })
        },
{
    lemma_cascade_steps(children, act.id);
    let c = cascade_steps(children, act.id);
    if act.act_type == ActType::Handover {
        let st = delete_steps(act, children);
        assert forall|k: int| 0 <= k < st.len() - 3 implies st[k] == #[trigger] c[k] by {}
    }
}

/// Plans the deletion of `act`, given its live returns in creation order.
pub fn delete_plan(act: &ActState, children: &Vec<(i64, i64)>) -> (steps: Vec<DeleteStep>)
    ensures
        steps@ == delete_steps(*act, children@),
{
    let mut steps: Vec<DeleteStep> = Vec::new();
    match act.act_type {
        ActType::Handover => {
            let mut n: usize = children.len();
            assert(children@.subrange(0, n as int) =~= children@);
            assert(steps@ + cascade_steps(children@, act.id) =~= cascade_steps(children@, act.id));
            while n > 0
                invariant
                    n <= children.len(),
                    steps@ + cascade_steps(children@.subrange(0, n as int), act.id) == cascade_steps(children@, act.id),
                decreases n,
            {
                let r = children[n - 1];
                let ghost pre = steps@;
                assert(children@.subrange(0, n as int).drop_last() =~= children@.subrange(0, n - 1));
                steps.push(DeleteStep::Undo { act_id: r.0 });
                steps.push(DeleteStep::SoftDelete { act_id: r.0, version: r.1 });
                steps.push(DeleteStep::Audit { act_id: r.0, cascade_from: Some(act.id) });
                assert(steps@ =~= pre + seq![
                    DeleteStep::Undo { act_id: r.0 },
                    DeleteStep::SoftDelete { act_id: r.0, version: r.1 },
                    DeleteStep::Audit { act_id: r.0, cascade_from: Some(act.id) },
                ]);
                assert(steps@ + cascade_steps(children@.subrange(0, n - 1), act.id)
                    =~= pre + cascade_steps(children@.subrange(0, n as int), act.id));
                n = n - 1;
            }
            assert(children@.subrange(0, 0) =~= Seq::<(i64, i64)>::empty());
            assert(steps@ =~= cascade_steps(children@, act.id));
            steps.push(DeleteStep::Undo { act_id: act.id });
            steps.push(DeleteStep::SoftDelete { act_id: act.id, version: act.version });
            steps.push(DeleteStep::Audit { act_id: act.id, cascade_from: None });
        },
        ActType::Return => {
            steps.push(DeleteStep::Undo { act_id: act.id });
            steps.push(DeleteStep::SoftDelete { act_id: act.id, version: act.version });
            match act.parent_act_id {
                Some(p) => steps.push(DeleteStep::RecomputeParent { parent_id: p }),
                None => {},
            }
            steps.push(DeleteStep::Audit { act_id: act.id, cascade_from: None });
        },
    }
    assert(steps@ =~= delete_steps(*act, children@));
    steps
}

/// The audit rows of an act's device changes, to be undone: last change
/// first, so each device ends at the state before the act's first change.
pub fn undo_order(rows: Vec<(i64, String)>) -> (r: Vec<(i64, String)>)
    ensures
        r@ == rows@.reverse(),
{
    let ghost orig = rows@;
    let mut rows = rows;
    let mut r: Vec<(i64, String)> = Vec::new();
    while rows.len() > 0
        invariant
            rows@ == orig.subrange(0, rows@.len() as int),
            r@ == orig.subrange(rows@.len() as int, orig.len() as int).reverse(),
            rows@.len() <= orig.len(),
        decreases rows.len(),
    {
        let ghost n = rows@.len();
        let x = rows.pop().unwrap();
        r.push(x);
        assert(orig.subrange(n - 1, orig.len() as int).reverse()
            =~= orig.subrange(n as int, orig.len() as int).reverse().push(orig[n - 1]));
    }
    assert(orig.subrange(0, orig.len() as int) =~= orig);
    r
}

// ---------------------------------------------------------------------------
// Printed number suffix
// ---------------------------------------------------------------------------

/// The index of the first `c` in `s`.
pub open spec fn first_index_of(s: Seq<char>, c: char) -> Option<int>
    decreases s.len(),
{
    if s.len() == 0 {
        None
    } else if s.last() == c && first_index_of(s.drop_last(), c) is None {
        Some(s.len() - 1)
    } else {
        first_index_of(s.drop_last(), c)
    }
}

/// The suffix of a displayed act number (`"42в1"` → `"в1"`): what follows
/// the raw number when the display starts with it; otherwise everything
/// from the first `в`; otherwise nothing.
pub open spec fn number_suffix(display: Seq<char>, raw: int) -> Seq<char> {
    let r = signed_decimal(raw);
    if crate::text::has_prefix(display, r) {
        display.subrange(r.len() as int, display.len() as int)
    } else {
        match first_index_of(display, 'в') {
            Some(i) => display.subrange(i, display.len() as int),
            None => Seq::empty(),
        }
    }
}

proof fn lemma_first_index_of(s: Seq<char>, c: char)
    ensures
        first_index_of(s, c) matches Some(i) ==> 0 <= i < s.len() && s[i] == c
            && forall|k: int| 0 <= k < i ==> #[trigger] s[k] != c,
        first_index_of(s, c) is None ==> forall|k: int| 0 <= k < s.len() ==> #[trigger] s[k] != c,
    decreases s.len(),
{
    if s.len() > 0 {
        lemma_first_index_of(s.drop_last(), c);
        assert forall|k: int| 0 <= k < s.len() - 1 implies s.drop_last()[k] == #[trigger] s[k] by {}
    }
}

/// The suffix is the tail of the displayed number: the display ends with
/// it, and when the display starts with the raw number, that number
/// followed by the suffix is the whole display.
pub proof fn suffix_completes_the_number(display: Seq<char>, raw: int)
    ensures
        number_suffix(display, raw).len() <= display.len(),
        number_suffix(display, raw) == display.subrange(display.len() - number_suffix(display, raw).len(), display.len() as int),
        crate::text::has_prefix(display, signed_decimal(raw)) ==> signed_decimal(raw) + number_suffix(display, raw) == display,
        !crate::text::has_prefix(display, signed_decimal(raw)) && number_suffix(display, raw).len() > 0 ==> ({
            let k = display.len() - number_suffix(display, raw).len();
            display[k] == 'в' && forall|j: int| 0 <= j < k ==> #[trigger] display[j] != 'в'
        }),
        !crate::text::has_prefix(display, signed_decimal(raw)) && number_suffix(display, raw).len() == 0 ==>
            forall|j: int| 0 <= j < display.len() ==> #[trigger] display[j] != 'в',
{
    let r = signed_decimal(raw);
    if crate::text::has_prefix(display, r) {
        assert(r + display.subrange(r.len() as int, display.len() as int) =~= display);
    } else {
        lemma_first_index_of(display, 'в');
        match first_index_of(display, 'в') {
            Some(i) => {
                assert(display.subrange(i, display.len() as int)[0] == display[i]);
            },
            None => {
                assert(display.subrange(display.len() as int, display.len() as int) =~= Seq::<char>::empty());
            },
        }
    }
}

/// Extracts the suffix of a displayed act number for the printed form.
pub fn compute_suffix_from_display(display: &str, number_raw: i64) -> (r: String)
    ensures
        r@ == number_suffix(display@, number_raw as int),
{
    let d = crate::text::chars_of(display);
    let raw = signed_decimal_chars(number_raw);
    let n = d.len();
    if crate::text::starts_with(&d, &raw) {
        let mut out: Vec<char> = Vec::new();
        let mut i: usize = raw.len();
        while i < n
            invariant
                d@ == display@,
                raw.len() <= i <= n,
                n == d@.len(),
                out@ == d@.subrange(raw.len() as int, i as int),
            decreases n - i,
        {
            out.push(d[i]);
            i = i + 1;
            assert(out@ =~= d@.subrange(raw.len() as int, i as int));
        }
        return crate::text::string_of(&out);
    }
    let mut k: usize = 0;
    while k < n
        invariant
            d@ == display@,
            raw@ == signed_decimal(number_raw as int),
            !crate::text::has_prefix(display@, raw@),
            n == d@.len(),
            k <= n,
            first_index_of(d@.subrange(0, k as int), 'в') is None,
        decreases n - k,
    {
        assert(d@.subrange(0, k + 1).drop_last() =~= d@.subrange(0, k as int));
        if d[k] == 'в' {
            proof {
                lemma_first_index_extends(d@, k as int);
            }
            let mut out: Vec<char> = Vec::new();
            let mut i: usize = k;
            while i < n
                invariant
                    d@ == display@,
                    raw@ == signed_decimal(number_raw as int),
                    !crate::text::has_prefix(display@, raw@),
                    first_index_of(display@, 'в') == Some(k as int),
                    k <= i <= n,
                    n == d@.len(),
                    out@ == d@.subrange(k as int, i as int),
                decreases n - i,
            {
                out.push(d[i]);
                i = i + 1;
                assert(out@ =~= d@.subrange(k as int, i as int));
            }
            return crate::text::string_of(&out);
        }
        k = k + 1;
    }
    assert(d@.subrange(0, n as int) =~= d@);
    String::new()
}

proof fn lemma_first_index_extends(s: Seq<char>, k: int)
    requires
        0 <= k < s.len(),
        s[k] == 'в',
        first_index_of(s.subrange(0, k), 'в') is None,
    ensures
        first_index_of(s, 'в') == Some(k),
    decreases s.len() - k,
{
    if k == s.len() - 1 {
        assert(s.drop_last() =~= s.subrange(0, k));
    } else {
        let t = s.drop_last();
        assert(t.subrange(0, k) =~= s.subrange(0, k));
        lemma_first_index_extends(t, k);
    }
}

} // verus!

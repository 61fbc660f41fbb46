//! Place rules: names, the duplicate-name message, the audit action of an
//! archive toggle, and who a movement in the history is shown as made by.

use vstd::prelude::*;
use crate::error::{AppError, is_validation, validation};
use crate::text::{blank, chars_of, is_blank};

verus! {

/// A place needs a non-blank name.
pub fn validate_place_name(name: &str) -> (r: Result<(), AppError>)
    ensures
        is_blank(name@) ==> (r matches Err(e) && is_validation(e, "name"@, "Название обязательно для заполнения"@)),
        !is_blank(name@) ==> r is Ok,
{
    if blank(name) {
        return Err(validation("name", "Название обязательно для заполнения"));
    }
    Ok(())
}

/// `needle` occurs in `s`.
pub open spec fn contains_text(s: Seq<char>, needle: Seq<char>) -> bool {
    exists|i: int| 0 <= i && i + needle.len() <= s.len() && #[trigger] s.subrange(i, i + needle.len()) == needle
}

/// `str::contains` on two strings.
pub fn str_contains(s: &str, needle: &str) -> (b: bool)
    ensures
        b == contains_text(s@, needle@),
{
    let sv = chars_of(s);
    let nv = chars_of(needle);
    if nv.len() > sv.len() {
        proof {
            assert forall|i: int| 0 <= i && i + nv@.len() <= sv@.len() implies
                #[trigger] s@.subrange(i, i + needle@.len()) != needle@ by {}
        }
        return false;
    }
    let last = sv.len() - nv.len();
    let mut i: usize = 0;
    while i <= last
        invariant
            sv@ == s@,
            nv@ == needle@,
            nv.len() <= sv.len(),
            last == sv.len() - nv.len(),
            i <= last + 1,
            forall|k: int| 0 <= k < i ==> #[trigger] s@.subrange(k, k + needle@.len()) != needle@,
        decreases last + 1 - i,
    {
        let mut j: usize = 0;
        let mut same = true;
        while j < nv.len()
            invariant
                sv@ == s@,
                nv@ == needle@,
                i + nv.len() <= sv.len(),
                j <= nv.len(),
                same == (forall|q: int| 0 <= q < j ==> sv@[i + q] == nv@[q]),
            decreases nv.len() - j,
        {
            if sv[i + j] != nv[j] {
                same = false;
            }
            j = j + 1;
        }
        if same {
            assert(s@.subrange(i as int, i + needle@.len()) =~= needle@);
            return true;
        }
        proof {
            let q = choose|q: int| 0 <= q < nv.len() && sv@[i + q] != nv@[q];
            assert(s@.subrange(i as int, i + needle@.len())[q] != needle@[q]);
        }
        i = i + 1;
    }
    false
}

/// A conflict raised by the sibling-name unique index
/// (`idx_places_parent_name_unique`): a sibling already has this name.
pub fn is_duplicate_name_conflict(e: &AppError) -> (b: bool)
    ensures
        b == (e matches AppError::Conflict { reason } && contains_text(reason@, "idx_places_parent_name_unique"@)),
{
    match e {
        AppError::Conflict { reason } => str_contains(reason.as_str(), "idx_places_parent_name_unique"),
        _ => false,
    }
}

/// The message for a duplicate place name, under a parent or at the root.
pub open spec fn duplicate_name_message(parent_path: Option<Seq<char>>, name: Seq<char>) -> Seq<char> {
    match parent_path {
        Some(p) => "В «"@ + p + "» уже есть место «"@ + name + "». Укажите другое имя."@,
        None => "Место «"@ + name + "» уже существует в списке корневых мест. Укажите другое имя."@,
    }
}

/// The validation error shown for a duplicate place name.
pub fn duplicate_name_error(parent_path: &Option<String>, name: &str) -> (e: AppError)
    ensures
        is_validation(e, "name"@, duplicate_name_message(match parent_path { Some(p) => Some(p@), None => None }, name@)),
{
    let mut msg = String::new();
    match parent_path {
        Some(p) => {
            msg.append("В «");
            msg.append(p.as_str());
            msg.append("» уже есть место «");
            msg.append(name);
            msg.append("». Укажите другое имя.");
        },
        None => {
            msg.append("Место «");
            msg.append(name);
            msg.append("» уже существует в списке корневых мест. Укажите другое имя.");
        },
    }
    AppError::Validation { field: "name".to_owned(), message: msg }
}

/// The audit action of an archive toggle.
pub fn archive_action(archived: bool) -> (s: &'static str)
    ensures
        archived ==> s@ == "archive"@,
        !archived ==> s@ == "unarchive"@,
{
    if archived { "archive" } else { "unarchive" }
}

/// Who a movement is shown as made by: the recorded actor name when a user
/// made it and the name is not empty; otherwise that user's login when it
/// still exists; otherwise, and for movements without a user, "система".
pub fn actor_display(user_id: Option<i64>, snapshot: &Option<String>, login: &Option<String>) -> (s: String)
    ensures
        user_id is None ==> s@ == "система"@,
        user_id is Some && (snapshot matches Some(n) && n@.len() > 0) ==> s@ == snapshot->0@,
        user_id is Some && !(snapshot matches Some(n) && n@.len() > 0) ==> s@ == (match login {
            Some(l) => l@,
            None => "система"@,
        }),
{
    match user_id {
        None => "система".to_owned(),
        Some(_) => {
            match snapshot {
                Some(n) => {
                    if n.as_str().unicode_len() > 0 {
                        return n.clone();
                    }
                },
                None => {},
            }
            match login {
                Some(l) => l.clone(),
                None => "система".to_owned(),
            }
        },
    }
}

} // verus!

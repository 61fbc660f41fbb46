//! Cartridge and cartridge-model rules: creation input, custom codes, the
//! optimistic-lock failure, model names and the guard on deleting a model in
//! use.

use vstd::prelude::*;
use crate::error::{AppError, is_validation, validation};
use crate::text::{blank, chars_of, is_blank, push_all, signed_decimal, signed_decimal_chars, trim, trimmed};

verus! {

/// A character below U+0020 (a control character).
pub open spec fn is_control(c: char) -> bool {
    (c as u32) < 0x20
}

/// Some character of `s` is a control character.
pub open spec fn has_control(s: Seq<char>) -> bool {
    exists|i: int| 0 <= i < s.len() && is_control(#[trigger] s[i])
}

/// Longest custom cartridge code, in characters.
pub const MAX_CODE_CHARS: usize = 32;

/// The first problem of a new cartridge: no model chosen, or a custom code
/// that is blank, longer than 32 characters once trimmed, or holds a
/// control character.
pub open spec fn cartridge_create_error(model_id: i64, code: Option<Seq<char>>) -> Option<(Seq<char>, Seq<char>)> {
    if model_id == 0 {
        Some(("model_id"@, "Выберите модель картриджа"@))
    } else {
        match code {
            None => None,
            Some(c) => if trim(c).len() == 0 {
                Some(("code_override"@, "Код не может быть пустым"@))
            } else if trim(c).len() > MAX_CODE_CHARS {
                Some(("code_override"@, "Код не должен превышать 32 символа"@))
            } else if has_control(c) {
                Some(("code_override"@, "Код содержит недопустимые символы"@))
            } else {
                None
            },
        }
    }
}

/// A new cartridge is accepted exactly when a model is chosen and a custom
/// code, if given, has 1 to 32 characters once trimmed and no character
/// below U+0020.
pub proof fn accepted_cartridge_is_well_formed(model_id: i64, code: Option<Seq<char>>)
    ensures
        cartridge_create_error(model_id, code) is None <==> (model_id != 0 && match code {
            None => true,
            Some(c) => 1 <= trim(c).len() <= 32 && forall|i: int| 0 <= i < c.len() ==> (#[trigger] c[i] as u32) >= 0x20,
        }),
{
    if let Some(c) = code {
        if has_control(c) {
            let i = choose|i: int| 0 <= i < c.len() && is_control(#[trigger] c[i]);
            assert((c[i] as u32) < 0x20);
        } else {
            assert forall|i: int| 0 <= i < c.len() implies (#[trigger] c[i] as u32) >= 0x20 by {
                assert(!is_control(c[i]));
            }
        }
    }
}

/// Checks a new cartridge.
pub fn validate_cartridge_create(model_id: i64, code_override: &Option<String>) -> (r: Result<(), AppError>)
    ensures
        match cartridge_create_error(model_id, match code_override { Some(c) => Some(c@), None => None }) {
            None => r is Ok,
            Some(fe) => r matches Err(e) && is_validation(e, fe.0, fe.1),
        },
{
    if model_id == 0 {
        return Err(validation("model_id", "Выберите модель картриджа"));
    }
    match code_override {
        None => Ok(()),
        Some(code) => {
            let t = trimmed(code.as_str());
            let n = t.as_str().unicode_len();
            if n == 0 {
                return Err(validation("code_override", "Код не может быть пустым"));
            }
            if n > MAX_CODE_CHARS {
                return Err(validation("code_override", "Код не должен превышать 32 символа"));
            }
            let cs = chars_of(code.as_str());
            let mut i: usize = 0;
            while i < cs.len()
                invariant
                    cs@ == code@,
                    *code_override == Some::<String>(*code),
                    model_id != 0,
                    trim(code@).len() != 0,
                    trim(code@).len() <= MAX_CODE_CHARS,
                    i <= cs.len(),
                    forall|k: int| 0 <= k < i ==> !is_control(#[trigger] cs@[k]),
                decreases cs.len() - i,
            {
                if (cs[i] as u32) < 0x20 {
                    assert(is_control(cs@[i as int]));
                    assert(is_control(code@[i as int]));
                    assert(has_control(code@));
                    return Err(validation("code_override", "Код содержит недопустимые символы"));
                }
                i = i + 1;
            }
            assert(!has_control(code@));
            Ok(())
        },
    }
}

/// The audit action of a cartridge creation: a generated code is a plain
/// creation, a custom one is recorded as an override.
pub fn cartridge_create_action(code_was_generated: bool) -> (s: &'static str)
    ensures
        code_was_generated ==> s@ == "create"@,
        !code_was_generated ==> s@ == "custom:cartridge_code_override"@,
{
    if code_was_generated { "create" } else { "custom:cartridge_code_override" }
}

/// The error of an update that matched no live row: the row is gone
/// (`NotFound`) or has another version (`OptimisticLockMismatch`).
pub fn stale_row_error(entity: &str, id: i64, expected: i64, actual: Option<i64>) -> (e: AppError)
    ensures
        actual is None ==> (e matches AppError::NotFound { entity: en, id: i } && en@ == entity@ && i == id),
        actual matches Some(a) ==> (e matches AppError::OptimisticLockMismatch { entity: en, id: i, expected: x, actual: y }
            && en@ == entity@ && i == id && x == expected && y == a),
{
    match actual {
        None => AppError::NotFound { entity: entity.to_owned(), id },
        Some(a) => AppError::OptimisticLockMismatch { entity: entity.to_owned(), id, expected, actual: a },
    }
}

/// The place a cartridge installed into a printer gets when none is given:
/// the printer's place (none when the printer is unknown).
pub fn install_place(given: Option<i64>, printer_place: Option<Option<i64>>) -> (p: Option<i64>)
    ensures
        given is Some ==> p == given,
        given is None ==> p == (match printer_place { Some(x) => x, None => None }),
{
    match given {
        Some(x) => Some(x),
        None => match printer_place {
            Some(x) => x,
            None => None,
        },
    }
}

/// The first problem of a cartridge model: a blank brand or model name.
pub fn validate_model_names(brand: &str, model: &str) -> (r: Result<(), AppError>)
    ensures
        is_blank(brand@) ==> (r matches Err(e) && is_validation(e, "brand"@, "Укажите бренд модели"@)),
        !is_blank(brand@) && is_blank(model@) ==> (r matches Err(e) && is_validation(e, "model"@, "Укажите название модели"@)),
        !is_blank(brand@) && !is_blank(model@) ==> r is Ok,
{
    if blank(brand) {
        return Err(validation("brand", "Укажите бренд модели"));
    }
    if blank(model) {
        return Err(validation("model", "Укажите название модели"));
    }
    Ok(())
}

/// Message for a model that already exists.
pub open spec fn model_exists_message(brand: Seq<char>, model: Seq<char>) -> Seq<char> {
    "Модель «"@ + trim(brand) + " "@ + trim(model) + "» уже существует"@
}

/// The conflict for a duplicate model (names compared trimmed).
pub fn model_exists(brand: &str, model: &str) -> (e: AppError)
    ensures
        crate::error::is_conflict(e, model_exists_message(brand@, model@)),
{
    let mut msg = String::new();
    msg.append("Модель «");
    msg.append(trimmed(brand).as_str());
    msg.append(" ");
    msg.append(trimmed(model).as_str());
    msg.append("» уже существует");
    AppError::Conflict { reason: msg }
}

/// Message for deleting a model still used by cartridges.
pub open spec fn model_in_use_message(n: i64) -> Seq<char> {
    "Нельзя удалить модель: она используется "@ + signed_decimal(n as int) + " картриджами"@
}

/// A model may be deleted only when no live cartridge uses it.
pub fn check_model_unused(live_count: i64) -> (r: Result<(), AppError>)
    ensures
        live_count > 0 ==> (r matches Err(e) && crate::error::is_conflict(e, model_in_use_message(live_count))),
        live_count <= 0 ==> r is Ok,
{
    if live_count > 0 {
        let mut msg = String::new();
        msg.append("Нельзя удалить модель: она используется ");
        push_all(&mut msg, &signed_decimal_chars(live_count));
        msg.append(" картриджами");
        return Err(AppError::Conflict { reason: msg });
    }
    Ok(())
}

/// The LIKE pattern of a name suggestion: the prefix followed by `%`.
pub fn prefix_pattern(prefix: &str) -> (p: String)
    ensures
        p@ == prefix@ + seq!['%'],
{
    let mut p = String::new();
    p.append(prefix);
    p.append("%");
    proof {
        reveal_strlit("%");
    }
    assert(p@ =~= prefix@ + seq!['%']);
    p
}

} // verus!

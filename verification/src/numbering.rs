//! Numbering rules shared by devices, acts and cartridges: which live record
//! already holds a number, the look-alike ("doppelganger") match, the texts
//! of the number warnings and which template a form remembers.

use vstd::prelude::*;
use crate::error::{AppError, is_validation, validation};
use crate::org::{lowercase, to_lowercase};
use crate::text::{str_eq, trim, trimmed};

verus! {

/// A live record that holds a number of a numbering space.
#[derive(Clone, Debug, PartialEq, Eq)]
pub struct NumberHolder {
    pub id: i64,
    pub raw_value: String,
}

/// The number as compared for occupancy: trimmed and lowercased.
pub open spec fn number_key(s: Seq<char>) -> Seq<char> {
    lowercase(trim(s))
}

/// Record `h` holds `key` and is not the record being edited.
pub open spec fn holds(h: NumberHolder, key: Seq<char>, exclude_id: Option<i64>) -> bool {
    exclude_id != Some(h.id) && number_key(h.raw_value@) == key
}

/// The first holder, in the order read, of the candidate's number; none for
/// a blank candidate.
pub open spec fn occupying_index(rows: Seq<NumberHolder>, candidate: Seq<char>, exclude_id: Option<i64>) -> Option<int> {
    if trim(candidate).len() == 0 {
        None
    } else {
        first_holder(rows, number_key(candidate), exclude_id, 0)
    }
}

/// The first index at or after `i` whose record holds `key`.
pub open spec fn first_holder(rows: Seq<NumberHolder>, key: Seq<char>, exclude_id: Option<i64>, i: int) -> Option<int>
    decreases rows.len() - i,
{
    if i < 0 || i >= rows.len() {
        None
    } else if holds(rows[i], key, exclude_id) {
        Some(i)
    } else {
        first_holder(rows, key, exclude_id, i + 1)
    }
}

proof fn lemma_first_holder(rows: Seq<NumberHolder>, key: Seq<char>, exclude_id: Option<i64>, i: int)
    requires
        0 <= i,
    ensures
        first_holder(rows, key, exclude_id, i) matches Some(j) ==> i <= j < rows.len() && holds(rows[j], key, exclude_id)
            && forall|k: int| i <= k < j ==> !holds(#[trigger] rows[k], key, exclude_id),
        first_holder(rows, key, exclude_id, i) is None ==> forall|k: int| i <= k < rows.len() ==> !holds(#[trigger] rows[k], key, exclude_id),
    decreases rows.len() - i,
{
    if i < rows.len() && !holds(rows[i], key, exclude_id) {
        lemma_first_holder(rows, key, exclude_id, i + 1);
    }
}

/// The record found as holding a number is the first one, in the order
/// read, whose trimmed, lowercased number equals the candidate's and which
/// is not the record being edited; when none is found, no record but the
/// edited one holds it; a blank candidate is never held.
pub proof fn occupying_record_is_first_other_holder(rows: Seq<NumberHolder>, candidate: Seq<char>, exclude_id: Option<i64>)
    ensures
        trim(candidate).len() == 0 ==> occupying_index(rows, candidate, exclude_id) is None,
        occupying_index(rows, candidate, exclude_id) matches Some(i) ==> {
            &&& 0 <= i < rows.len()
            &&& exclude_id != Some(rows[i].id)
            &&& lowercase(trim(rows[i].raw_value@)) == lowercase(trim(candidate))
            &&& forall|k: int| 0 <= k < i ==> !(exclude_id != Some(#[trigger] rows[k].id)
                && lowercase(trim(rows[k].raw_value@)) == lowercase(trim(candidate)))
        },
        trim(candidate).len() != 0 && occupying_index(rows, candidate, exclude_id) is None ==>
            forall|k: int| 0 <= k < rows.len() ==> !(exclude_id != Some(#[trigger] rows[k].id)
                && lowercase(trim(rows[k].raw_value@)) == lowercase(trim(candidate))),
{
    lemma_first_holder(rows, number_key(candidate), exclude_id, 0);
    if trim(candidate).len() != 0 {
        if occupying_index(rows, candidate, exclude_id) is None {
            assert forall|k: int| 0 <= k < rows.len() implies !(exclude_id != Some(#[trigger] rows[k].id)
                && lowercase(trim(rows[k].raw_value@)) == lowercase(trim(candidate))) by {
                assert(!holds(rows[k], number_key(candidate), exclude_id));
            }
        } else {
            let i = occupying_index(rows, candidate, exclude_id)->0;
            assert forall|k: int| 0 <= k < i implies !(exclude_id != Some(#[trigger] rows[k].id)
                && lowercase(trim(rows[k].raw_value@)) == lowercase(trim(candidate))) by {
                assert(!holds(rows[k], number_key(candidate), exclude_id));
            }
        }
    }
}

/// Finds the live record already holding `candidate` (compared trimmed and
/// lowercased), other than `exclude_id`.
pub fn find_occupying(rows: &Vec<NumberHolder>, candidate: &str, exclude_id: Option<i64>) -> (r: Option<usize>)
    ensures
        match r {
            Some(i) => occupying_index(rows@, candidate@, exclude_id) == Some(i as int),
            None => occupying_index(rows@, candidate@, exclude_id) is None,
        },
{
    let t = trimmed(candidate);
    if t.as_str().unicode_len() == 0 {
        return None;
    }
    let needle = to_lowercase(t.as_str());
    let mut i: usize = 0;
    while i < rows.len()
        invariant
            i <= rows.len(),
            trim(candidate@).len() != 0,
            needle@ == number_key(candidate@),
            first_holder(rows@, needle@, exclude_id, 0) == first_holder(rows@, needle@, exclude_id, i as int),
        decreases rows.len() - i,
    {
        let excluded = match exclude_id {
            Some(x) => x == rows[i].id,
            None => false,
        };
        if !excluded {
            let k = to_lowercase(trimmed(rows[i].raw_value.as_str()).as_str());
            if str_eq(k.as_str(), needle.as_str()) {
                return Some(i);
            }
        }
        i = i + 1;
    }
    None
}

/// A live record together with the Latin skeleton of its trimmed number.
#[derive(Clone, Debug, PartialEq, Eq)]
pub struct SkeletonHolder {
    pub id: i64,
    pub skeleton: String,
}

/// The first record, other than `exclude_id`, whose number has the same
/// Latin skeleton as the candidate: it looks the same but is written with
/// other letters.
pub fn find_doppelganger(rows: &Vec<SkeletonHolder>, candidate_skeleton: &str, exclude_id: Option<i64>) -> (r: Option<usize>)
    ensures
        match r {
            Some(i) => i < rows.len() && exclude_id != Some(rows@[i as int].id)
                && rows@[i as int].skeleton@ == candidate_skeleton@
                && forall|k: int| 0 <= k < i ==> !(exclude_id != Some(#[trigger] rows@[k].id) && rows@[k].skeleton@ == candidate_skeleton@),
            None => forall|k: int| 0 <= k < rows.len() ==> !(exclude_id != Some(#[trigger] rows@[k].id) && rows@[k].skeleton@ == candidate_skeleton@),
        },
{
    let mut i: usize = 0;
    while i < rows.len()
        invariant
            i <= rows.len(),
            forall|k: int| 0 <= k < i ==> !(exclude_id != Some(#[trigger] rows@[k].id) && rows@[k].skeleton@ == candidate_skeleton@),
        decreases rows.len() - i,
    {
        let excluded = match exclude_id {
            Some(x) => x == rows[i].id,
            None => false,
        };
        if !excluded && str_eq(rows[i].skeleton.as_str(), candidate_skeleton) {
            return Some(i);
        }
        i = i + 1;
    }
    None
}

/// The second suggestion ("max + 1") is offered only when there is a gap,
/// the counter has not overflowed and that number still fits the mask.
pub fn alt_number_shown(has_gap: bool, overflowed: bool, max_plus_one_fits_width: bool) -> (b: bool)
    ensures
        b == (has_gap && !overflowed && max_plus_one_fits_width),
{
    has_gap && !overflowed && max_plus_one_fits_width
}

/// The warning for a number that mixes Cyrillic and Latin letters, naming
/// the look-alike record when there is one.
pub open spec fn script_mix_message(candidate: Seq<char>, doppelganger: Option<(Seq<char>, Seq<char>)>) -> Seq<char> {
    let base = "В номере «"@ + candidate + "» смешаны русские и латинские буквы. Внешне одинаковые буквы, например «О» и «O», считаются разными — такой номер легко перепутать."@;
    match doppelganger {
        Some(d) => base + " Он выглядит так же, как существующий номер «"@ + candidate + "» ("@ + d.0 + " «"@ + d.1
            + "»), но записан другими буквами."@,
        None => base,
    }
}

/// Builds the script-mix warning.
pub fn script_mix_text(candidate: &str, doppelganger: Option<(&str, &str)>) -> (s: String)
    ensures
        s@ == script_mix_message(candidate@, match doppelganger { Some((k, t)) => Some((k@, t@)), None => None }),
{
    let mut s = String::new();
    s.append("В номере «");
    s.append(candidate);
    s.append("» смешаны русские и латинские буквы. Внешне одинаковые буквы, например «О» и «O», считаются разными — такой номер легко перепутать.");
    match doppelganger {
        Some((kind, title)) => {
            s.append(" Он выглядит так же, как существующий номер «");
            s.append(candidate);
            s.append("» (");
            s.append(kind);
            s.append(" «");
            s.append(title);
            s.append("»), но записан другими буквами.");
        },
        None => {},
    }
    s
}

/// The forms that number templates are remembered for.
#[derive(Clone, Copy, Debug, PartialEq, Eq)]
pub enum TemplateContext {
    ActCreate,
    CartridgeCreate,
    DrumCreate,
    DeviceCreate,
    PrinterCreate,
}

/// Only the device and printer forms may create a device.
pub fn check_device_context(context: TemplateContext) -> (r: Result<(), AppError>)
    ensures
        (context == TemplateContext::DeviceCreate || context == TemplateContext::PrinterCreate) ==> r is Ok,
        !(context == TemplateContext::DeviceCreate || context == TemplateContext::PrinterCreate)
            ==> (r matches Err(e) && is_validation(e, "context"@, "Недопустимый контекст для создания устройства."@)),
{
    match context {
        TemplateContext::DeviceCreate | TemplateContext::PrinterCreate => Ok(()),
        _ => Err(validation("context", "Недопустимый контекст для создания устройства.")),
    }
}

/// The warning for a number that does not fit the chosen template.
pub open spec fn mismatch_message(number: Seq<char>, mask: Seq<char>, printer: bool) -> Seq<char> {
    "Номер «"@ + number + "» не подходит под шаблон «"@ + mask + "». Сохранить как есть? Следующее окно «"@
        + (if printer { "Новый принтер"@ } else { "Новое устройство"@ }) + "» откроется без шаблона."@
}

/// Builds the template-mismatch warning of the device or printer form.
pub fn mismatch_text(number: &str, mask: &str, context: TemplateContext) -> (s: String)
    ensures
        s@ == mismatch_message(number@, mask@, context == TemplateContext::PrinterCreate),
{
    let mut s = String::new();
    s.append("Номер «");
    s.append(number);
    s.append("» не подходит под шаблон «");
    s.append(mask);
    s.append("». Сохранить как есть? Следующее окно «");
    match context {
        TemplateContext::PrinterCreate => s.append("Новый принтер"),
        _ => s.append("Новое устройство"),
    }
    s.append("» откроется без шаблона.");
    s
}

/// The template a form remembers after saving: the one used, unless the
/// user confirmed a mismatch (then the next form opens without a template).
pub fn template_to_remember(template_id: Option<i64>, confirm_mismatch: bool) -> (r: Option<i64>)
    ensures
        r == (if template_id is Some && !confirm_mismatch { template_id } else { None }),
{
    if template_id.is_some() && !confirm_mismatch { template_id } else { None }
}

/// The kind shown for a device that holds a number.
pub fn device_holder_kind(type_id: i64) -> (s: &'static str)
    ensures
        type_id == 2 ==> s@ == "printer"@,
        type_id != 2 ==> s@ == "device"@,
{
    if type_id == 2 { "printer" } else { "device" }
}

/// The kind shown for a cartridge that holds a code.
pub fn cartridge_holder_kind(kind_id: i64) -> (s: &'static str)
    ensures
        kind_id == 2 ==> s@ == "drum"@,
        kind_id != 2 ==> s@ == "cartridge"@,
{
    if kind_id == 2 { "drum" } else { "cartridge" }
}

/// The title shown for an act that holds a number.
pub fn act_holder_title(act_type: &str) -> (s: &'static str)
    ensures
        act_type@ == "return"@ ==> s@ == "Акт возврата"@,
        act_type@ != "return"@ ==> s@ == "Акт передачи"@,
{
    if str_eq(act_type, "return") { "Акт возврата" } else { "Акт передачи" }
}

/// The subtitle shown for an act that holds a number.
pub fn act_holder_subtitle(giver: &str, receiver: &str) -> (s: String)
    ensures
        s@ == "Передал: "@ + giver@ + " · Принял: "@ + receiver@,
{
    let mut s = String::new();
    s.append("Передал: ");
    s.append(giver);
    s.append(" · Принял: ");
    s.append(receiver);
    s
}

/// The title shown for a cartridge that holds a code: brand and model.
pub fn cartridge_holder_title(brand: &str, model: &str) -> (s: String)
    ensures
        s@ == brand@ + " "@ + model@,
{
    let mut s = String::new();
    s.append(brand);
    s.append(" ");
    s.append(model);
    s
}

} // verus!

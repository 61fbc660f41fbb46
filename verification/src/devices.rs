//! Device rules: required fields, seed type and status ids and names, the
//! inventory-number normalization, bulk creation limits, and the row-by-row
//! decisions of the CSV import.

use vstd::prelude::*;
use crate::error::{AppError, is_validation, validation};
use crate::org::{lowercase, to_lowercase};
use crate::reports::{
    csv_clean, csv_into_inner, csv_records_written, csv_safe, csv_safe_spec, csv_semicolon_text, csv_semicolon_writer,
    csv_write_record, internal_error, opt_text, record_view, string_from_utf8,
};
use crate::text::{blank, decimal, decimal_chars, is_blank, push_all, signed_decimal, signed_decimal_chars, str_eq, trim, trimmed};

verus! {

/// A new device as the form or the CSV import gives it.
#[derive(Clone, Debug, PartialEq, Eq)]
pub struct DeviceNew {
    pub type_id: i64,
    pub name: String,
    pub inventory_no: Option<String>,
    pub serial_no: Option<String>,
    pub model: Option<String>,
    pub specs: Option<String>,
    pub kit: Option<String>,
    pub state: Option<String>,
    pub place_id: Option<i64>,
    pub status_id: i64,
}

/// The first missing required field of a new device, with its message.
pub open spec fn device_new_error(name: Seq<char>, type_id: i64, status_id: i64) -> Option<(Seq<char>, Seq<char>)> {
    if is_blank(name) {
        Some(("name"@, "Наименование обязательно для заполнения"@))
    } else if type_id <= 0 {
        Some(("type_id"@, "Тип устройства обязателен"@))
    } else if status_id <= 0 {
        Some(("status_id"@, "Статус устройства обязателен"@))
    } else {
        None
    }
}

/// A new device is accepted exactly when its name is not blank and both
/// its type and its status are chosen (positive ids).
pub proof fn accepted_device_is_well_formed(name: Seq<char>, type_id: i64, status_id: i64)
    ensures
        device_new_error(name, type_id, status_id) is None <==> (!is_blank(name) && type_id > 0 && status_id > 0),
{
}

/// A device needs a non-blank name, a type and a status.
pub fn validate_device_new(new: &DeviceNew) -> (r: Result<(), AppError>)
    ensures
        match device_new_error(new.name@, new.type_id, new.status_id) {
            None => r is Ok,
            Some(fe) => r matches Err(e) && is_validation(e, fe.0, fe.1),
        },
{
    if blank(new.name.as_str()) {
        return Err(validation("name", "Наименование обязательно для заполнения"));
    }
    if new.type_id <= 0 {
        return Err(validation("type_id", "Тип устройства обязателен"));
    }
    if new.status_id <= 0 {
        return Err(validation("status_id", "Статус устройства обязателен"));
    }
    Ok(())
}

/// Seed id of the plain device type.
pub const DEVICE_TYPE_ID: i64 = 1;
/// Seed id of the printer type.
pub const PRINTER_TYPE_ID: i64 = 2;

/// What a device's type implies for its printer row.
#[derive(Clone, Copy, Debug, PartialEq, Eq)]
pub enum PrinterSync {
    /// A printer: make sure a printer row exists.
    EnsurePrinter,
    /// A plain device: drop any printer row.
    DeletePrinter,
    /// Another type: leave printer rows alone.
    Keep,
}

/// Keeps the `printers` table in step with the device type.
pub fn printer_sync(type_id: i64) -> (s: PrinterSync)
    ensures
        type_id == PRINTER_TYPE_ID ==> s == PrinterSync::EnsurePrinter,
        type_id == DEVICE_TYPE_ID ==> s == PrinterSync::DeletePrinter,
        type_id != PRINTER_TYPE_ID && type_id != DEVICE_TYPE_ID ==> s == PrinterSync::Keep,
{
    if type_id == PRINTER_TYPE_ID {
        PrinterSync::EnsurePrinter
    } else if type_id == DEVICE_TYPE_ID {
        PrinterSync::DeletePrinter
    } else {
        PrinterSync::Keep
    }
}

/// The seed type id of a CSV type label (anything unknown is a device).
pub open spec fn type_id_for(label: Option<Seq<char>>) -> i64 {
    match label {
        Some(l) => if l == "Расходник"@ || l == "расходник"@ { 2 } else { 1 },
        None => 1,
    }
}

/// Resolves a type label from CSV to a seed type id.
pub fn resolve_type_id(label: Option<&str>) -> (id: i64)
    ensures
        id == type_id_for(match label { Some(l) => Some(l@), None => None }),
{
    match label {
        Some(l) => if str_eq(l, "Расходник") || str_eq(l, "расходник") { 2 } else { 1 },
        None => 1,
    }
}

/// The seed status id of a CSV status label (anything unknown is "in stock").
pub open spec fn status_id_for(label: Option<Seq<char>>) -> i64 {
    match label {
        Some(l) => if l == "В работе"@ || l == "в работе"@ {
            2
        } else if l == "На ремонте"@ || l == "на ремонте"@ {
            3
        } else if l == "Списано"@ || l == "списано"@ {
            4
        } else {
            1
        },
        None => 1,
    }
}

/// Resolves a status label from CSV to a seed status id.
pub fn resolve_status_id(label: Option<&str>) -> (id: i64)
    ensures
        id == status_id_for(match label { Some(l) => Some(l@), None => None }),
{
    match label {
        Some(l) => {
            if str_eq(l, "В работе") || str_eq(l, "в работе") {
                2
            } else if str_eq(l, "На ремонте") || str_eq(l, "на ремонте") {
                3
            } else if str_eq(l, "Списано") || str_eq(l, "списано") {
                4
            } else {
                1
            }
        },
        None => 1,
    }
}

/// The export name of a seed type id.
pub fn type_id_to_name(type_id: i64) -> (s: &'static str)
    ensures
        type_id == 2 ==> s@ == "Расходник"@,
        type_id != 2 ==> s@ == "Устройство"@,
{
    if type_id == 2 { "Расходник" } else { "Устройство" }
}

/// The export name of a seed status id.
pub fn status_id_to_name(status_id: i64) -> (s: &'static str)
    ensures
        status_id == 2 ==> s@ == "В работе"@,
        status_id == 3 ==> s@ == "На ремонте"@,
        status_id == 4 ==> s@ == "Списано"@,
        !(status_id == 2 || status_id == 3 || status_id == 4) ==> s@ == "На складе"@,
{
    if status_id == 2 {
        "В работе"
    } else if status_id == 3 {
        "На ремонте"
    } else if status_id == 4 {
        "Списано"
    } else {
        "На складе"
    }
}

/// The export name of a seed type id.
pub open spec fn type_export_name(type_id: i64) -> Seq<char> {
    if type_id == 2 { "Расходник"@ } else { "Устройство"@ }
}

/// The export name of a seed status id.
pub open spec fn status_export_name(status_id: i64) -> Seq<char> {
    if status_id == 2 {
        "В работе"@
    } else if status_id == 3 {
        "На ремонте"@
    } else if status_id == 4 {
        "Списано"@
    } else {
        "На складе"@
    }
}

/// A device as the CSV export lists it.
#[derive(Clone, Debug, PartialEq, Eq)]
pub struct DeviceExportRow {
    pub type_id: i64,
    pub name: String,
    pub inventory_no: Option<String>,
    pub serial_no: Option<String>,
    pub model: Option<String>,
    pub specs: Option<String>,
    pub kit: Option<String>,
    pub state: Option<String>,
    pub full_path: Option<String>,
    pub status_id: i64,
}

/// The header line of the device export.
pub open spec fn device_export_header() -> Seq<Seq<char>> {
    seq![
        "Тип"@, "Наименование"@, "Инвентарный №"@, "Серийный №"@, "Модель"@,
        "Технические характеристики"@, "Комплектация"@, "Состояние"@, "Место"@, "Статус"@,
    ]
}

/// The line of one device: every cell made formula-safe, absent values empty.
pub open spec fn device_export_record(d: DeviceExportRow) -> Seq<Seq<char>> {
    seq![
        type_export_name(d.type_id), d.name@, opt_text(d.inventory_no), opt_text(d.serial_no), opt_text(d.model),
        opt_text(d.specs), opt_text(d.kit), opt_text(d.state), opt_text(d.full_path), status_export_name(d.status_id),
    ].map_values(|c: Seq<char>| csv_safe_spec(c))
}

/// The records of a device export: the header, then one line per device.
pub open spec fn device_export_records(devices: Seq<DeviceExportRow>) -> Seq<Seq<Seq<char>>> {
    seq![device_export_header()] + devices.map_values(|d: DeviceExportRow| device_export_record(d))
}

fn opt_str_of(o: &Option<String>) -> (s: &str)
    ensures
        s@ == opt_text(*o),
{
    match o {
        Some(x) => x.as_str(),
        None => {
            proof {
                reveal_strlit("");
            }
            ""
        },
    }
}

fn device_export_cells(d: &DeviceExportRow) -> (v: Vec<String>)
    ensures
        record_view(v@) == device_export_record(*d),
{
    let mut v: Vec<String> = Vec::new();
    v.push(csv_safe(type_id_to_name(d.type_id)));
    v.push(csv_safe(d.name.as_str()));
    v.push(csv_safe(opt_str_of(&d.inventory_no)));
    v.push(csv_safe(opt_str_of(&d.serial_no)));
    v.push(csv_safe(opt_str_of(&d.model)));
    v.push(csv_safe(opt_str_of(&d.specs)));
    v.push(csv_safe(opt_str_of(&d.kit)));
    v.push(csv_safe(opt_str_of(&d.state)));
    v.push(csv_safe(opt_str_of(&d.full_path)));
    v.push(csv_safe(status_id_to_name(d.status_id)));
    assert(record_view(v@) =~= device_export_record(*d));
    v
}

fn device_export_header_cells() -> (v: Vec<String>)
    ensures
        record_view(v@) == device_export_header(),
{
    let v = vec![
        "Тип".to_owned(), "Наименование".to_owned(), "Инвентарный №".to_owned(), "Серийный №".to_owned(),
        "Модель".to_owned(), "Технические характеристики".to_owned(), "Комплектация".to_owned(),
        "Состояние".to_owned(), "Место".to_owned(), "Статус".to_owned(),
    ];
    assert(record_view(v@) =~= device_export_header());
    v
}

/// Exports devices as semicolon-separated CSV with Russian headers, each
/// cell made formula-safe, the text preceded by a byte-order mark. Every
/// line has the header's ten cells, so the export always succeeds.
pub fn export_devices_csv(devices: &Vec<DeviceExportRow>) -> (r: Result<String, AppError>)
    ensures
        r matches Ok(s) && s@ == seq!['\u{FEFF}'] + csv_semicolon_text(device_export_records(devices@)),
{
    let mut wtr = csv_semicolon_writer();
    let header = device_export_header_cells();
    match csv_write_record(&mut wtr, &header) {
        Ok(()) => {},
        Err(m) => return Err(internal_error("csv writer headers: ", m)),
    }
    let ghost dv = devices@.map_values(|d: DeviceExportRow| device_export_record(d));
    assert(csv_records_written(wtr) =~= seq![device_export_header()] + dv.subrange(0, 0));
    let mut i: usize = 0;
    while i < devices.len()
        invariant
            i <= devices.len(),
            dv == devices@.map_values(|d: DeviceExportRow| device_export_record(d)),
            csv_clean(wtr),
            csv_records_written(wtr) == seq![device_export_header()] + dv.subrange(0, i as int),
        decreases devices.len() - i,
    {
        let rec = device_export_cells(&devices[i]);
        match csv_write_record(&mut wtr, &rec) {
            Ok(()) => {},
            Err(m) => return Err(internal_error("csv writer row: ", m)),
        }
        assert(seq![device_export_header()] + dv.subrange(0, i + 1)
            =~= (seq![device_export_header()] + dv.subrange(0, i as int)).push(dv[i as int]));
        i = i + 1;
    }
    assert(dv.subrange(0, devices.len() as int) =~= dv);
    let ghost recs = csv_records_written(wtr);
    proof {
        vstd::utf8::encode_utf8_valid_utf8(csv_semicolon_text(recs));
    }
    let bytes = match csv_into_inner(wtr) {
        Ok(b) => b,
        Err(m) => return Err(internal_error("csv writer flush: ", m)),
    };
    let body = match string_from_utf8(bytes) {
        Ok(t) => t,
        Err(m) => return Err(internal_error("csv utf8 conversion: ", m)),
    };
    proof {
        vstd::utf8::encode_utf8_decode_utf8(body@);
        vstd::utf8::encode_utf8_decode_utf8(csv_semicolon_text(recs));
    }
    let mut out = String::new();
    crate::text::push_char(&mut out, '\u{FEFF}');
    out.append(body.as_str());
    assert(out@ =~= seq!['\u{FEFF}'] + csv_semicolon_text(device_export_records(devices@)));
    Ok(out)
}

/// Exporting the name of a label's id gives the label back for every label
/// the import knows in capitalized form.
pub proof fn status_labels_round_trip()
    ensures
        status_id_for(Some("В работе"@)) == 2,
        status_id_for(Some("На ремонте"@)) == 3,
        status_id_for(Some("Списано"@)) == 4,
        status_id_for(Some("На складе"@)) == 1,
        type_id_for(Some("Расходник"@)) == 2,
        type_id_for(Some("Устройство"@)) == 1,
{
    reveal_strlit("В работе");
    reveal_strlit("в работе");
    reveal_strlit("На ремонте");
    reveal_strlit("на ремонте");
    reveal_strlit("Списано");
    reveal_strlit("списано");
    reveal_strlit("На складе");
    reveal_strlit("Расходник");
    reveal_strlit("расходник");
    reveal_strlit("Устройство");
    assert("На ремонте"@[0] != "В работе"@[0]);
    assert("На ремонте"@[0] != "в работе"@[0]);
    assert("Списано"@[0] != "В работе"@[0]);
    assert("Списано"@[0] != "в работе"@[0]);
    assert("Списано"@[0] != "На ремонте"@[0]);
    assert("Списано"@[0] != "на ремонте"@[0]);
    assert("На складе"@[0] != "В работе"@[0]);
    assert("На складе"@[0] != "в работе"@[0]);
    assert("На складе"@[3] != "На ремонте"@[3]);
    assert("На складе"@[0] != "на ремонте"@[0]);
    assert("На складе"@[0] != "Списано"@[0]);
    assert("На складе"@[0] != "списано"@[0]);
    assert("Устройство"@[0] != "Расходник"@[0]);
    assert("Устройство"@[0] != "расходник"@[0]);
}

/// A Cyrillic capital letter lowered (`А`..`Я` to `а`..`я`); any other
/// character unchanged.
pub open spec fn lower_cyrillic(c: char) -> char {
    if 'А' <= c && c <= 'Я' {
        ((c as int) + 32) as char
    } else {
        c
    }
}

/// The text with its first letter lowered.
pub open spec fn lower_initial(s: Seq<char>) -> Seq<char> {
    if s.len() == 0 {
        s
    } else {
        seq![lower_cyrillic(s[0])] + s.drop_first()
    }
}

/// Every status the export writes is read back by the import as the same
/// id, whether its label is capitalized or starts with a small letter.
pub proof fn status_labels_resolve_in_either_case(id: i64)
    requires
        1 <= id <= 4,
    ensures
        status_id_for(Some(status_export_name(id))) == id,
        status_id_for(Some(lower_initial(status_export_name(id)))) == id,
{
    status_labels_round_trip();
    reveal_strlit("В работе");
    reveal_strlit("в работе");
    reveal_strlit("На ремонте");
    reveal_strlit("на ремонте");
    reveal_strlit("Списано");
    reveal_strlit("списано");
    reveal_strlit("На складе");
    assert(lower_initial("В работе"@) =~= "в работе"@);
    assert(lower_initial("На ремонте"@) =~= "на ремонте"@);
    assert(lower_initial("Списано"@) =~= "списано"@);
    let low = lower_initial("На складе"@);
    assert(low[0] == 'н');
    assert(low.len() == "На складе"@.len());
    assert(low[3] != "на ремонте"@[3]);
    assert(low[0] != "в работе"@[0]);
    assert(low[0] != "списано"@[0]);
    assert(low[0] != "В работе"@[0]);
    assert(low[0] != "На ремонте"@[0]);
    assert(low[0] != "Списано"@[0]);
}

/// The type labels read back in either case too: a consumable (`Расходник`,
/// `расходник`) is type 2, anything else a device.
pub proof fn type_labels_resolve_in_either_case()
    ensures
        type_id_for(Some("Расходник"@)) == 2,
        type_id_for(Some(lower_initial("Расходник"@))) == 2,
        type_id_for(Some("Устройство"@)) == 1,
        type_id_for(Some(lower_initial("Устройство"@))) == 1,
{
    reveal_strlit("Расходник");
    reveal_strlit("расходник");
    reveal_strlit("Устройство");
    assert(lower_initial("Расходник"@) =~= "расходник"@);
    let low = lower_initial("Устройство"@);
    assert(low[0] == 'у');
    assert(low[0] != "Расходник"@[0]);
    assert(low[0] != "расходник"@[0]);
}

/// An inventory number as stored: trimmed, and absent when blank.
pub open spec fn normalized_number(n: Option<Seq<char>>) -> Option<Seq<char>> {
    match n {
        Some(x) => if trim(x).len() == 0 { None } else { Some(trim(x)) },
        None => None,
    }
}

/// Trims an inventory number and turns a blank one into none.
pub fn normalize_inventory_no(n: &Option<String>) -> (r: Option<String>)
    ensures
        match r { Some(x) => Some(x@), None => None } == normalized_number(match n { Some(x) => Some(x@), None => None }),
{
    match n {
        Some(x) => {
            let t = trimmed(x.as_str());
            if t.as_str().unicode_len() == 0 {
                None
            } else {
                Some(t)
            }
        },
        None => None,
    }
}

/// Message for an inventory number already in use.
pub open spec fn number_taken_message(n: Seq<char>) -> Seq<char> {
    "номер уже занят — "@ + n
}

/// The conflict raised for an occupied inventory number.
pub fn number_taken(n: &str) -> (e: AppError)
    ensures
        crate::error::is_conflict(e, number_taken_message(n@)),
{
    let mut msg = String::new();
    msg.append("номер уже занят — ");
    msg.append(n);
    AppError::Conflict { reason: msg }
}

/// Whether an edit changes the inventory number: the submitted number,
/// trimmed, when it differs from the current one, trimmed (an empty result
/// clears the number).
pub fn changed_inventory_no(submitted: &str, current: &Option<String>) -> (r: Option<String>)
    ensures
        trim(submitted@) != trim(match current { Some(c) => c@, None => Seq::empty() })
            ==> (r matches Some(x) && x@ == trim(submitted@)),
        trim(submitted@) == trim(match current { Some(c) => c@, None => Seq::empty() }) ==> r is None,
{
    let t = trimmed(submitted);
    let c = match current {
        Some(c) => trimmed(c.as_str()),
        None => {
            let e = String::new();
            proof {
                assert(trim(Seq::<char>::empty()) =~= Seq::<char>::empty()) by {
                    reveal_with_fuel(crate::text::trim_start, 1);
                }
            }
            e
        },
    };
    if str_eq(t.as_str(), c.as_str()) {
        None
    } else {
        Some(t)
    }
}

/// Largest number of devices made at once.
pub const MAX_BULK_COUNT: u32 = 100;

/// A batch of identical devices: 1 to 100 of them, and several only when
/// they carry no inventory or serial number.
pub fn check_bulk_count(count: u32, inventory_no: &Option<String>, serial_no: &Option<String>) -> (r: Result<(), AppError>)
    ensures
        (count == 0 || count > MAX_BULK_COUNT) ==> (r matches Err(e)
            && is_validation(e, "count"@, "Количество должно быть от 1 до 100"@)),
        1 <= count <= MAX_BULK_COUNT && count > 1 && ((inventory_no matches Some(i) && !is_blank(i@))
            || (serial_no matches Some(s) && !is_blank(s@))) ==> (r matches Err(e) && is_validation(e, "count"@,
            "Нельзя создавать больше одного устройства, если задан инвентарный или серийный номер"@)),
        r is Ok <==> (1 <= count <= MAX_BULK_COUNT && (count > 1 ==> !(inventory_no matches Some(i) && !is_blank(i@))
            && !(serial_no matches Some(s) && !is_blank(s@)))),
{
    if count == 0 || count > MAX_BULK_COUNT {
        return Err(validation("count", "Количество должно быть от 1 до 100"));
    }
    if count > 1 {
        let inv = match inventory_no {
            Some(i) => !blank(i.as_str()),
            None => false,
        };
        let ser = match serial_no {
            Some(s) => !blank(s.as_str()),
            None => false,
        };
        if inv || ser {
            return Err(validation("count",
                "Нельзя создавать больше одного устройства, если задан инвентарный или серийный номер"));
        }
    }
    Ok(())
}

/// A page of devices holds at most 200 rows.
pub fn check_device_page_limit(limit: u64) -> (r: Result<(), AppError>)
    ensures
        limit <= 200 ==> r is Ok,
        limit > 200 ==> (r matches Err(e) && is_validation(e, "pagination.limit"@, "Максимальный размер страницы — 200"@)),
{
    if limit > 200 {
        return Err(validation("pagination.limit", "Максимальный размер страницы — 200"));
    }
    Ok(())
}

/// The index of the first status code that did not resolve to an id.
pub open spec fn first_unresolved(ids: Seq<Option<i64>>) -> Option<int>
    decreases ids.len(),
{
    if ids.len() == 0 {
        None
    } else {
        match first_unresolved(ids.drop_last()) {
            Some(i) => Some(i),
            None => if ids.last() is None { Some(ids.len() - 1) } else { None },
        }
    }
}

/// The code refused is the first one without a status: every code before
/// it resolved; when none is refused, every code resolved.
pub proof fn first_unresolved_is_first(ids: Seq<Option<i64>>)
    ensures
        first_unresolved(ids) matches Some(i) ==> 0 <= i < ids.len() && ids[i] is None
            && forall|k: int| 0 <= k < i ==> (#[trigger] ids[k]) is Some,
        first_unresolved(ids) is None ==> forall|k: int| 0 <= k < ids.len() ==> (#[trigger] ids[k]) is Some,
    decreases ids.len(),
{
    if ids.len() > 0 {
        first_unresolved_is_first(ids.drop_last());
        assert forall|k: int| 0 <= k < ids.len() - 1 implies ids.drop_last()[k] == #[trigger] ids[k] by {}
    }
}

/// The message for a status code with no status.
pub open spec fn unknown_status_message(code: Seq<char>) -> Seq<char> {
    "Unknown status code: "@ + code
}

/// The status filter of an autocomplete, from the requested codes and the id
/// each resolved to (`ids[i]` for `codes[i]`): no codes, no filter; the first
/// code without a status is refused; otherwise the ids, in order.
pub fn status_filter_ids(codes: &Vec<String>, ids: &Vec<Option<i64>>) -> (r: Result<Option<Vec<i64>>, AppError>)
    requires
        codes.len() == ids.len(),
    ensures
        codes@.len() == 0 ==> r == Ok::<Option<Vec<i64>>, AppError>(None),
        codes@.len() > 0 ==> match first_unresolved(ids@) {
            Some(i) => r matches Err(e) && is_validation(e, "status_in"@, unknown_status_message(codes@[i]@)),
            None => r matches Ok(Some(v)) && v@.len() == ids@.len()
                && forall|k: int| 0 <= k < ids@.len() ==> ids@[k] == Some(#[trigger] v@[k]),
        },
{
    if codes.len() == 0 {
        return Ok(None);
    }
    let mut out: Vec<i64> = Vec::new();
    let mut i: usize = 0;
    while i < ids.len()
        invariant
            codes.len() == ids.len(),
            i <= ids.len(),
            first_unresolved(ids@.subrange(0, i as int)) is None,
            out@.len() == i,
            forall|k: int| 0 <= k < i ==> ids@[k] == Some(#[trigger] out@[k]),
        decreases ids.len() - i,
    {
        assert(ids@.subrange(0, i + 1).drop_last() =~= ids@.subrange(0, i as int));
        match ids[i] {
            Some(id) => {
                out.push(id);
            },
            None => {
                proof {
                    lemma_unresolved_prefix(ids@, i as int + 1);
                }
                let mut msg = String::new();
                msg.append("Unknown status code: ");
                msg.append(codes[i].as_str());
                return Err(crate::error::validation_owned("status_in".to_owned(), msg));
            },
        }
        i = i + 1;
    }
    assert(ids@.subrange(0, ids.len() as int) =~= ids@);
    Ok(Some(out))
}

proof fn lemma_unresolved_prefix(s: Seq<Option<i64>>, n: int)
    requires
        0 < n <= s.len(),
        first_unresolved(s.subrange(0, n)) is Some,
    ensures
        first_unresolved(s) == first_unresolved(s.subrange(0, n)),
    decreases s.len() - n,
{
    if n == s.len() {
        assert(s.subrange(0, n) =~= s);
    } else {
        let t = s.drop_last();
        assert(t.subrange(0, n) =~= s.subrange(0, n));
        lemma_unresolved_prefix(t, n);
    }
}

/// The UUID `uuid::Uuid::parse_str` reads from `token` (as its 128-bit
/// value), or `None` when it refuses the text.
pub uninterp spec fn uuid_parsed(token: Seq<char>) -> Option<u128>;

/// Calls `uuid::Uuid::parse_str(token)` and takes `Uuid::as_u128`; the
/// result is the named `uuid_parsed` of the text.
#[verifier::external_body]
fn uuid_parse(token: &str) -> (r: Option<u128>)
    ensures
        r == uuid_parsed(token@),
{
    match uuid::Uuid::parse_str(token) {
        Ok(u) => Some(u.as_u128()),
        Err(_) => None,
    }
}

/// The import session a commit names: the token must be a UUID, else a
/// validation error on `token`.
pub fn import_token(token: &str) -> (r: Result<u128, AppError>)
    ensures
        match uuid_parsed(token@) {
            Some(v) => r == Ok::<u128, AppError>(v),
            None => r matches Err(e) && is_validation(e, "token"@, "Некорректный токен"@),
        },
{
    match uuid_parse(token) {
        Some(v) => Ok(v),
        None => Err(validation("token", "Некорректный токен")),
    }
}

/// A session that was taken, or the error for one that expired or was
/// already used.
pub fn import_session<T>(session: Option<T>) -> (r: Result<T, AppError>)
    ensures
        match session {
            Some(x) => r matches Ok(y) && y == x,
            None => r matches Err(e) && is_validation(e, "token"@, "Сессия истекла или уже использована"@),
        },
{
    match session {
        Some(x) => Ok(x),
        None => Err(validation("token", "Сессия истекла или уже использована")),
    }
}

/// At most 1000 devices may be asked for by id at once.
pub fn check_ids_request(n: usize) -> (r: Result<(), AppError>)
    ensures
        n > 1000 ==> (r matches Err(e) && is_validation(e, "ids"@, "Нельзя запросить более 1000 устройств за один раз"@)),
        n <= 1000 ==> r is Ok,
{
    if n > 1000 {
        return Err(validation("ids", "Нельзя запросить более 1000 устройств за один раз"));
    }
    Ok(())
}

/// Largest CSV file accepted for import (50 MiB).
pub const MAX_IMPORT_BYTES: usize = 52428800;

/// An import file may not exceed 50 MiB.
pub fn check_import_size(n: usize) -> (r: Result<(), AppError>)
    ensures
        n > MAX_IMPORT_BYTES ==> (r matches Err(e) && is_validation(e, "file"@, "Файл больше 50 МБ"@)),
        n <= MAX_IMPORT_BYTES ==> r is Ok,
{
    if n > MAX_IMPORT_BYTES {
        return Err(validation("file", "Файл больше 50 МБ"));
    }
    Ok(())
}

// ---------------------------------------------------------------------------
// CSV import, row by row
// ---------------------------------------------------------------------------

/// The index of the last header named `name` (headers are looked up by a
/// map built from them, so a repeated header means its last column).
pub open spec fn header_index(headers: Seq<Seq<char>>, name: Seq<char>) -> Option<int>
    decreases headers.len(),
{
    if headers.len() == 0 {
        None
    } else if headers.last() == name {
        Some(headers.len() - 1)
    } else {
        header_index(headers.drop_last(), name)
    }
}

/// The column of a header name is the last column with exactly that name
/// (later columns override earlier ones); a name no column has has none.
pub proof fn header_lookup_finds_the_last_column(headers: Seq<Seq<char>>, name: Seq<char>)
    ensures
        header_index(headers, name) matches Some(i) ==> 0 <= i < headers.len() && headers[i] == name
            && forall|k: int| i < k < headers.len() ==> #[trigger] headers[k] != name,
        header_index(headers, name) is None ==> forall|k: int| 0 <= k < headers.len() ==> #[trigger] headers[k] != name,
    decreases headers.len(),
{
    if headers.len() > 0 {
        header_lookup_finds_the_last_column(headers.drop_last(), name);
        assert forall|k: int| 0 <= k < headers.len() - 1 implies headers.drop_last()[k] == #[trigger] headers[k] by {}
    }
}

/// The trimmed, non-empty value of column `col` in `row`.
pub open spec fn cell_value(row: Seq<Seq<char>>, headers: Seq<Seq<char>>, col: Seq<char>) -> Option<Seq<char>> {
    match header_index(headers, col) {
        Some(i) => if i < row.len() && trim(row[i]).len() > 0 { Some(trim(row[i])) } else { None },
        None => None,
    }
}

/// The value a device field gets from a row: among the mapping entries for
/// that field, in the order given, the last one whose cell is non-empty.
pub open spec fn field_value(
    row: Seq<Seq<char>>,
    headers: Seq<Seq<char>>,
    mapping: Seq<(Seq<char>, Seq<char>)>,
    field: Seq<char>,
) -> Option<Seq<char>>
    decreases mapping.len(),
{
    if mapping.len() == 0 {
        None
    } else {
        let m = mapping.last();
        let v = if m.1 == field { cell_value(row, headers, m.0) } else { None };
        match v {
            Some(x) => Some(x),
            None => field_value(row, headers, mapping.drop_last(), field),
        }
    }
}

/// The texts of a list of strings.
pub open spec fn texts(v: Seq<String>) -> Seq<Seq<char>> {
    v.map_values(|s: String| s@)
}

/// The texts of a mapping.
pub open spec fn mapping_texts(v: Seq<(String, String)>) -> Seq<(Seq<char>, Seq<char>)> {
    v.map_values(|p: (String, String)| (p.0@, p.1@))
}

fn header_lookup(headers: &Vec<String>, name: &str) -> (r: Option<usize>)
    ensures
        match r {
            Some(i) => header_index(texts(headers@), name@) == Some(i as int),
            None => header_index(texts(headers@), name@) is None,
        },
{
    let mut k: usize = headers.len();
    assert(texts(headers@).subrange(0, k as int) =~= texts(headers@));
    while k > 0
        invariant
            k <= headers.len(),
            header_index(texts(headers@), name@) == header_index(texts(headers@).subrange(0, k as int), name@),
        decreases k,
    {
        let h = headers[k - 1].as_str();
        let ghost sub = texts(headers@).subrange(0, k as int);
        assert(sub.last() == h@);
        assert(sub.drop_last() =~= texts(headers@).subrange(0, k - 1));
        if str_eq(h, name) {
            return Some(k - 1);
        }
        k = k - 1;
    }
    None
}

fn cell_of(row: &Vec<String>, headers: &Vec<String>, col: &str) -> (r: Option<String>)
    ensures
        match r { Some(x) => Some(x@), None => None } == cell_value(texts(row@), texts(headers@), col@),
{
    match header_lookup(headers, col) {
        Some(i) => {
            if i < row.len() {
                let t = trimmed(row[i].as_str());
                if t.as_str().unicode_len() > 0 {
                    Some(t)
                } else {
                    None
                }
            } else {
                None
            }
        },
        None => None,
    }
}

/// The value of one device field from a CSV row.
pub fn mapped_value(row: &Vec<String>, headers: &Vec<String>, mapping: &Vec<(String, String)>, field: &str) -> (r: Option<String>)
    ensures
        match r { Some(x) => Some(x@), None => None }
            == field_value(texts(row@), texts(headers@), mapping_texts(mapping@), field@),
{
    let mut k: usize = mapping.len();
    let ghost mt = mapping_texts(mapping@);
    assert(mt.subrange(0, k as int) =~= mt);
    while k > 0
        invariant
            k <= mapping.len(),
            mt == mapping_texts(mapping@),
            field_value(texts(row@), texts(headers@), mt, field@)
                == field_value(texts(row@), texts(headers@), mt.subrange(0, k as int), field@),
        decreases k,
    {
        let ghost sub = mt.subrange(0, k as int);
        assert(sub.last() == (mapping@[k - 1].0@, mapping@[k - 1].1@));
        assert(sub.drop_last() =~= mt.subrange(0, k - 1));
        if str_eq(mapping[k - 1].1.as_str(), field) {
            let v = cell_of(row, headers, mapping[k - 1].0.as_str());
            if v.is_some() {
                return v;
            }
        }
        k = k - 1;
    }
    None
}

/// The device a CSV row describes, with the place text still to resolve:
/// each field from the mapping, the type and status from their labels
/// (defaults: device, in stock), the place left unset; a row without a name
/// is refused.
pub open spec fn row_device(
    row: Seq<Seq<char>>,
    headers: Seq<Seq<char>>,
    mapping: Seq<(Seq<char>, Seq<char>)>,
    d: DeviceNew,
    place: Option<Seq<char>>,
) -> bool {
    &&& row_device_fields(row, headers, mapping, d)
    &&& d.place_id is None
    &&& place == field_value(row, headers, mapping, "place"@)
}

/// Every field of `d` but the place is what the row maps to it.
pub open spec fn row_device_fields(
    row: Seq<Seq<char>>,
    headers: Seq<Seq<char>>,
    mapping: Seq<(Seq<char>, Seq<char>)>,
    d: DeviceNew,
) -> bool {
    let fv = |f: Seq<char>| field_value(row, headers, mapping, f);
    let ov = |o: Option<String>| match o { Some(x) => Some(x@), None => None };
    &&& fv("name"@) == Some(d.name@)
    &&& d.type_id == type_id_for(fv("type"@))
    &&& d.status_id == status_id_for(fv("status"@))
    &&& ov(d.inventory_no) == fv("inventory_no"@)
    &&& ov(d.serial_no) == fv("serial_no"@)
    &&& ov(d.model) == fv("model"@)
    &&& ov(d.specs) == fv("specs"@)
    &&& ov(d.kit) == fv("kit"@)
    &&& ov(d.state) == fv("state"@)
}

/// Builds the device of a CSV row; the error is the message for a missing name.
pub fn build_device_new_from_row(row: &Vec<String>, headers: &Vec<String>, mapping: &Vec<(String, String)>)
    -> (r: Result<(DeviceNew, Option<String>), String>)
    ensures
        match r {
            Ok((d, p)) => row_device(texts(row@), texts(headers@), mapping_texts(mapping@), d,
                match p { Some(x) => Some(x@), None => None }),
            Err(m) => field_value(texts(row@), texts(headers@), mapping_texts(mapping@), "name"@) is None
                && m@ == "Наименование обязательно для заполнения"@,
        },
{
    let name = mapped_value(row, headers, mapping, "name");
    let type_label = mapped_value(row, headers, mapping, "type");
    let inventory_no = mapped_value(row, headers, mapping, "inventory_no");
    let serial_no = mapped_value(row, headers, mapping, "serial_no");
    let model = mapped_value(row, headers, mapping, "model");
    let specs = mapped_value(row, headers, mapping, "specs");
    let kit = mapped_value(row, headers, mapping, "kit");
    let state = mapped_value(row, headers, mapping, "state");
    let place_text = mapped_value(row, headers, mapping, "place");
    let status_label = mapped_value(row, headers, mapping, "status");
    let type_id = resolve_type_id(match &type_label { Some(t) => Some(t.as_str()), None => None });
    let status_id = resolve_status_id(match &status_label { Some(t) => Some(t.as_str()), None => None });
    let name = match name {
        Some(n) => n,
        None => return Err("Наименование обязательно для заполнения".to_owned()),
    };
    Ok((DeviceNew {
        type_id,
        name,
        inventory_no,
        serial_no,
        model,
        specs,
        kit,
        state,
        place_id: None,
        status_id,
    }, place_text))
}

/// A refused CSV row: its 1-based index, an error code and the message.
#[derive(Clone, Debug, PartialEq, Eq)]
pub struct RowError {
    pub row_index: u64,
    pub error_code: String,
    pub error_message: String,
}

/// What to do with one CSV row.
pub enum RowPlan {
    /// Refuse the row.
    Fail(RowError),
    /// Create this device.
    Create(DeviceNew),
}

/// The first row of this file that used inventory-number key `key`.
pub open spec fn seen_row(seen: Seq<(Seq<char>, u64)>, key: Seq<char>) -> Option<u64>
    decreases seen.len(),
{
    if seen.len() == 0 {
        None
    } else {
        match seen_row(seen.drop_last(), key) {
            Some(r) => Some(r),
            None => if seen.last().0 == key { Some(seen.last().1) } else { None },
        }
    }
}

/// The id of the last place whose full path equals `key`, compared
/// lowercased.
pub open spec fn place_for(places: Seq<(Seq<char>, i64)>, key: Seq<char>) -> Option<i64>
    decreases places.len(),
{
    if places.len() == 0 {
        None
    } else if lowercase(places.last().0) == key {
        Some(places.last().1)
    } else {
        place_for(places.drop_last(), key)
    }
}

/// A repeated inventory number points at the first earlier row that used
/// it: the row recorded first for that key; a key no row used has none.
pub proof fn repeated_number_points_at_first_row(seen: Seq<(Seq<char>, u64)>, key: Seq<char>)
    ensures
        seen_row(seen, key) matches Some(r) ==> exists|i: int| 0 <= i < seen.len() && #[trigger] seen[i] == (key, r)
            && forall|k: int| 0 <= k < i ==> (#[trigger] seen[k]).0 != key,
        seen_row(seen, key) is None ==> forall|k: int| 0 <= k < seen.len() ==> (#[trigger] seen[k]).0 != key,
    decreases seen.len(),
{
    if seen.len() > 0 {
        let p = seen.drop_last();
        repeated_number_points_at_first_row(p, key);
        assert forall|k: int| 0 <= k < p.len() implies p[k] == #[trigger] seen[k] by {}
        if seen_row(p, key) is Some {
            let i = choose|i: int| 0 <= i < p.len() && #[trigger] p[i] == (key, seen_row(p, key)->0)
                && forall|k: int| 0 <= k < i ==> (#[trigger] p[k]).0 != key;
            assert(seen[i] == p[i]);
        } else if seen.last().0 == key {
            let i = seen.len() - 1;
            assert(seen[i] == (key, seen.last().1));
        }
    }
}

/// A place path names the last place whose full path, lowercased, is the
/// key; a key no place has names none.
pub proof fn place_lookup_matches_the_full_path(places: Seq<(Seq<char>, i64)>, key: Seq<char>)
    ensures
        place_for(places, key) matches Some(id) ==> exists|i: int| 0 <= i < places.len()
            && lowercase((#[trigger] places[i]).0) == key && places[i].1 == id,
        place_for(places, key) is None ==> forall|k: int| 0 <= k < places.len() ==> lowercase((#[trigger] places[k]).0) != key,
    decreases places.len(),
{
    if places.len() > 0 {
        let p = places.drop_last();
        place_lookup_matches_the_full_path(p, key);
        assert forall|k: int| 0 <= k < p.len() implies p[k] == #[trigger] places[k] by {}
        if lowercase(places.last().0) == key {
            assert(places[places.len() - 1] == places.last());
        } else if place_for(p, key) is Some {
            let i = choose|i: int| 0 <= i < p.len() && lowercase((#[trigger] p[i]).0) == key && p[i].1 == place_for(p, key)->0;
            assert(places[i] == p[i]);
        }
    }
}

/// The texts of a list of seen numbers.
pub open spec fn seen_texts(v: Seq<(String, u64)>) -> Seq<(Seq<char>, u64)> {
    v.map_values(|p: (String, u64)| (p.0@, p.1))
}

/// The texts of a list of places.
pub open spec fn place_texts(v: Seq<(String, i64)>) -> Seq<(Seq<char>, i64)> {
    v.map_values(|p: (String, i64)| (p.0@, p.1))
}

fn find_seen(seen: &Vec<(String, u64)>, key: &str) -> (r: Option<u64>)
    ensures
        r == seen_row(seen_texts(seen@), key@),
{
    let mut i: usize = 0;
    while i < seen.len()
        invariant
            i <= seen.len(),
            seen_row(seen_texts(seen@).subrange(0, i as int), key@) is None,
        decreases seen.len() - i,
    {
        let ghost sub = seen_texts(seen@).subrange(0, i + 1);
        assert(sub.drop_last() =~= seen_texts(seen@).subrange(0, i as int));
        if str_eq(seen[i].0.as_str(), key) {
            let r = seen[i].1;
            proof {
                lemma_seen_prefix(seen_texts(seen@), i as int + 1, key@);
            }
            return Some(r);
        }
        i = i + 1;
    }
    assert(seen_texts(seen@).subrange(0, seen.len() as int) =~= seen_texts(seen@));
    None
}

proof fn lemma_seen_prefix(s: Seq<(Seq<char>, u64)>, n: int, key: Seq<char>)
    requires
        0 < n <= s.len(),
        seen_row(s.subrange(0, n), key) is Some,
    ensures
        seen_row(s, key) == seen_row(s.subrange(0, n), key),
    decreases s.len() - n,
{
    if n == s.len() {
        assert(s.subrange(0, n) =~= s);
    } else {
        let t = s.drop_last();
        assert(t.subrange(0, n) =~= s.subrange(0, n));
        lemma_seen_prefix(t, n, key);
    }
}

fn find_place(places: &Vec<(String, i64)>, key: &str) -> (r: Option<i64>)
    ensures
        r == place_for(place_texts(places@), key@),
{
    let mut k: usize = places.len();
    let ghost pt = place_texts(places@);
    assert(pt.subrange(0, k as int) =~= pt);
    while k > 0
        invariant
            k <= places.len(),
            pt == place_texts(places@),
            place_for(pt, key@) == place_for(pt.subrange(0, k as int), key@),
        decreases k,
    {
        let ghost sub = pt.subrange(0, k as int);
        assert(sub.last() == (places@[k - 1].0@, places@[k - 1].1));
        assert(sub.drop_last() =~= pt.subrange(0, k - 1));
        let l = to_lowercase(places[k - 1].0.as_str());
        if str_eq(l.as_str(), key) {
            return Some(places[k - 1].1);
        }
        k = k - 1;
    }
    None
}

/// Message for an inventory number repeated within the file.
pub open spec fn repeated_number_message(n: Seq<char>, first_row: u64) -> Seq<char> {
    "номер уже занят — "@ + n + " (повтор строки "@ + decimal(first_row as nat) + ")"@
}

/// Message for a place path missing from the tree.
pub open spec fn unknown_place_message(text: Seq<char>) -> Seq<char> {
    "место «"@ + text + "» не найдено в дереве."@
}

fn row_fail(row_index: u64, message: String) -> (p: RowPlan)
    ensures
        p matches RowPlan::Fail(e) && e.row_index == row_index && e.error_code@ == "Validation"@
            && e.error_message@ == message@,
{
    RowPlan::Fail(RowError { row_index, error_code: "Validation".to_owned(), error_message: message })
}

/// The inventory-number key a row claims: its number trimmed and
/// lowercased, when the trimmed number is not empty.
pub open spec fn row_number_key(
    row: Seq<Seq<char>>,
    headers: Seq<Seq<char>>,
    mapping: Seq<(Seq<char>, Seq<char>)>,
) -> Option<Seq<char>> {
    match field_value(row, headers, mapping, "inventory_no"@) {
        Some(n) => if trim(n).len() > 0 { Some(lowercase(trim(n))) } else { None },
        None => None,
    }
}

/// The message an import row is refused with, or `None` when its device is
/// created: a missing name; an inventory number an earlier row of the file
/// used; a place path missing from the tree; a missing required field.
pub open spec fn import_row_failure(
    row: Seq<Seq<char>>,
    headers: Seq<Seq<char>>,
    mapping: Seq<(Seq<char>, Seq<char>)>,
    places: Seq<(Seq<char>, i64)>,
    seen: Seq<(Seq<char>, u64)>,
) -> Option<Seq<char>> {
    let fv = |f: Seq<char>| field_value(row, headers, mapping, f);
    match fv("name"@) {
        None => Some("Наименование обязательно для заполнения"@),
        Some(name) => {
            let repeated = match row_number_key(row, headers, mapping) {
                Some(key) => seen_row(seen, key),
                None => None,
            };
            if repeated is Some {
                Some(repeated_number_message(trim(fv("inventory_no"@)->0), repeated->0))
            } else if fv("place"@) is Some && place_for(places, lowercase(trim(fv("place"@)->0))) is None {
                Some(unknown_place_message(fv("place"@)->0))
            } else {
                match device_new_error(name, type_id_for(fv("type"@)), status_id_for(fv("status"@))) {
                    Some(fe) => Some(fe.1),
                    None => None,
                }
            }
        },
    }
}

/// The numbers remembered after a row: its key is added when the row has a
/// name and the key was not used before, whatever happens to the row later.
pub open spec fn seen_after_row(
    row: Seq<Seq<char>>,
    headers: Seq<Seq<char>>,
    mapping: Seq<(Seq<char>, Seq<char>)>,
    seen: Seq<(Seq<char>, u64)>,
    row_index: u64,
) -> Seq<(Seq<char>, u64)> {
    if field_value(row, headers, mapping, "name"@) is None {
        seen
    } else {
        match row_number_key(row, headers, mapping) {
            Some(key) => if seen_row(seen, key) is None { seen.push((key, row_index)) } else { seen },
            None => seen,
        }
    }
}

/// Decides one CSV row of an import, before the device is created: build it
/// from the mapping; refuse an inventory number used by an earlier row of
/// the same file (numbers compared trimmed and lowercased; the first use is
/// remembered in `seen` whatever happens to its row later); resolve the
/// place text against the place tree by exact, case-insensitive full path;
/// then check the required fields. Each refusal is a "Validation" row error.
pub fn plan_import_row(
    row_index: u64,
    row: &Vec<String>,
    headers: &Vec<String>,
    mapping: &Vec<(String, String)>,
    places: &Vec<(String, i64)>,
    seen: &mut Vec<(String, u64)>,
) -> (p: RowPlan)
    ensures
        seen_texts(final(seen)@) == seen_after_row(texts(row@), texts(headers@), mapping_texts(mapping@),
            seen_texts(old(seen)@), row_index),
        match import_row_failure(texts(row@), texts(headers@), mapping_texts(mapping@), place_texts(places@),
            seen_texts(old(seen)@)) {
            Some(m) => p matches RowPlan::Fail(e) && e.row_index == row_index && e.error_code@ == "Validation"@
                && e.error_message@ == m,
            None => p matches RowPlan::Create(d)
                && row_device_fields(texts(row@), texts(headers@), mapping_texts(mapping@), d)
                && d.place_id == (match field_value(texts(row@), texts(headers@), mapping_texts(mapping@), "place"@) {
                    Some(t) => place_for(place_texts(places@), lowercase(trim(t))),
                    None => None,
                }),
        },
{
    let (mut device, place_text) = match build_device_new_from_row(row, headers, mapping) {
        Ok(x) => x,
        Err(msg) => return row_fail(row_index, msg),
    };
    match &device.inventory_no {
        Some(raw) => {
            let t = trimmed(raw.as_str());
            if t.as_str().unicode_len() > 0 {
                let key = to_lowercase(t.as_str());
                match find_seen(seen, key.as_str()) {
                    Some(first) => {
                        let mut msg = String::new();
                        msg.append("номер уже занят — ");
                        msg.append(t.as_str());
                        msg.append(" (повтор строки ");
                        push_all(&mut msg, &decimal_chars(first));
                        msg.append(")");
                        return row_fail(row_index, msg);
                    },
                    None => {
                        seen.push((key, row_index));
                    },
                }
            }
        },
        None => {},
    }
    match place_text {
        Some(text) => {
            let key = to_lowercase(trimmed(text.as_str()).as_str());
            match find_place(places, key.as_str()) {
                Some(id) => {
                    device.place_id = Some(id);
                },
                None => {
                    let mut msg = String::new();
                    msg.append("место «");
                    msg.append(text.as_str());
                    msg.append("» не найдено в дереве.");
                    return row_fail(row_index, msg);
                },
            }
        },
        None => {},
    }
    match validate_device_new(&device) {
        Ok(()) => RowPlan::Create(device),
        Err(e) => {
            let msg = match e {
                AppError::Validation { field: _, message } => message,
                _ => String::new(),
            };
            row_fail(row_index, msg)
        },
    }
}

/// The error code and message recorded for a row whose creation failed:
/// a validation error names its field, a missing entity reads
/// "<entity> <id> не найден", a conflict keeps its reason, anything else is
/// internal.
pub fn creation_row_error(row_index: u64, e: &AppError) -> (r: RowError)
    ensures
        r.row_index == row_index,
        e matches AppError::Validation { field, message } ==> r.error_code@ == "Validation:"@ + field@
            && r.error_message@ == message@,
        e matches AppError::NotFound { entity, id } ==> r.error_code@ == "NotFound"@
            && r.error_message@ == entity@ + " "@ + signed_decimal(id as int) + " не найден"@,
        e matches AppError::Conflict { reason } ==> r.error_code@ == "Conflict"@ && r.error_message@ == reason@,
        !(e is Validation || e is NotFound || e is Conflict) ==> r.error_code@ == "Internal"@,
{
    match e {
        AppError::Validation { field, message } => {
            let mut code = String::new();
            code.append("Validation:");
            code.append(field.as_str());
            RowError { row_index, error_code: code, error_message: message.clone() }
        },
        AppError::NotFound { entity, id } => {
            let mut msg = String::new();
            msg.append(entity.as_str());
            msg.append(" ");
            push_all(&mut msg, &signed_decimal_chars(*id));
            msg.append(" не найден");
            RowError { row_index, error_code: "NotFound".to_owned(), error_message: msg }
        },
        AppError::Conflict { reason } => {
            RowError { row_index, error_code: "Conflict".to_owned(), error_message: reason.clone() }
        },
        _ => RowError { row_index, error_code: "Internal".to_owned(), error_message: crate::error::error_text(e) },
    }
}

} // verus!

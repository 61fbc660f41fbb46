use trackly_app::calendar::{format_handover_date, format_iso_date, format_ru_date};
use trackly_app::reports::{
    combine_printer_and_place, compute_period_utc, csv_safe, format_period_label,
    month_key_to_russian, translate_request_status, translate_request_type, PeriodDto,
};

const MOSCOW: i32 = 10800;

fn period(mode: &str) -> PeriodDto {
    PeriodDto { mode: mode.to_string(), year: None, month: None, date_from: None, date_to: None }
}

#[test]
fn period_month_june_2026_moscow() {
    let dto = PeriodDto { year: Some(2026), month: Some(6), ..period("month") };
    let (start, end) = compute_period_utc(&dto, MOSCOW);
    assert_eq!(start, Some(1_780_261_200_i64), "June 2026 start");
    assert_eq!(end, Some(1_782_853_199_i64), "June 2026 end");
}

#[test]
fn period_year_2026_moscow() {
    let dto = PeriodDto { year: Some(2026), ..period("year") };
    let (start, end) = compute_period_utc(&dto, MOSCOW);
    assert_eq!(start, Some(1_767_214_800_i64));
    assert_eq!(end, Some(1_798_750_799_i64));
}

#[test]
fn period_range_june_2026_moscow() {
    let dto = PeriodDto {
        date_from: Some("2026-06-01".to_string()),
        date_to: Some("2026-06-30".to_string()),
        ..period("range")
    };
    let (start, end) = compute_period_utc(&dto, MOSCOW);
    assert_eq!(start, Some(1_780_261_200_i64));
    assert_eq!(end, Some(1_782_853_199_i64));
}

#[test]
fn period_snapshot_mode_returns_none() {
    let (start, end) = compute_period_utc(&period("snapshot"), MOSCOW);
    assert_eq!(start, None);
    assert_eq!(end, None);
}

#[test]
fn period_edge_cases() {
    let feb = PeriodDto { year: Some(2024), month: Some(2), ..period("month") };
    let (s, e) = compute_period_utc(&feb, 0);
    assert_eq!(s, Some(1_706_745_600));
    assert_eq!(e, Some(1_709_251_199));
    let dec_last = PeriodDto { year: Some(9999), month: Some(12), ..period("month") };
    assert_eq!(compute_period_utc(&dec_last, 0), (None, None));
    let bad_month = PeriodDto { year: Some(2026), month: Some(13), ..period("month") };
    assert_eq!(compute_period_utc(&bad_month, 0), (None, None));
    let bad_range = PeriodDto {
        date_from: Some("2026-02-30".to_string()),
        date_to: Some("2026-03-01".to_string()),
        ..period("range")
    };
    assert_eq!(compute_period_utc(&bad_range, 0), (None, None));
}

#[test]
fn csv_safe_guards_formula_injection() {
    assert_eq!(csv_safe("=SUM(A1)"), "'=SUM(A1)");
    assert_eq!(csv_safe("+foo"), "'+foo");
    assert_eq!(csv_safe("-bar"), "'-bar");
    assert_eq!(csv_safe("@baz"), "'@baz");
    assert_eq!(csv_safe("normal"), "normal");
    assert_eq!(csv_safe(""), "");
}

#[test]
fn translate_request_type_known_values() {
    assert_eq!(translate_request_type("cartridge_replace"), "Замена картриджа");
    assert_eq!(translate_request_type("free_form"), "Произвольная");
    assert_eq!(translate_request_type("ad_register"), "Учётная запись AD");
}

#[test]
fn translate_request_type_unknown_falls_back_to_raw_key() {
    assert_eq!(translate_request_type("future_type"), "future_type");
}

#[test]
fn translate_request_status_known_values() {
    assert_eq!(translate_request_status("open"), "Открыта");
    assert_eq!(translate_request_status("in_progress"), "В работе");
    assert_eq!(translate_request_status("completed"), "Выполнена");
    assert_eq!(translate_request_status("rejected"), "Отклонена");
    assert_eq!(translate_request_status("cancelled"), "Отменена");
}

#[test]
fn translate_request_status_unknown_falls_back_to_raw_key() {
    assert_eq!(translate_request_status("future_status"), "future_status");
}

#[test]
fn combine_printer_and_place_none_without_printer() {
    assert_eq!(combine_printer_and_place(None, None), None);
}

#[test]
fn combine_printer_and_place_appends_place() {
    assert_eq!(
        combine_printer_and_place(Some("Принтер А".to_string()), Some("Каб. 305".to_string())),
        Some("Принтер А, Каб. 305".to_string())
    );
}

#[test]
fn combine_printer_and_place_printer_only_when_place_missing() {
    assert_eq!(
        combine_printer_and_place(Some("Принтер А".to_string()), None),
        Some("Принтер А".to_string())
    );
    assert_eq!(
        combine_printer_and_place(Some("Принтер А".to_string()), Some(String::new())),
        Some("Принтер А".to_string())
    );
}

#[test]
fn row_field_handover_date_formats_readable_moscow() {
    assert_eq!(format_handover_date(1_768_515_300, MOSCOW), "16.01.26, 01:15");
}

#[test]
fn row_field_handover_date_formats_readable_utc() {
    assert_eq!(format_handover_date(1_768_515_300, 0), "15.01.26, 22:15");
}

#[test]
fn handover_date_out_of_range_is_empty() {
    assert_eq!(format_handover_date(i64::MAX, 0), "");
}

#[test]
fn ru_and_iso_dates() {
    assert_eq!(format_ru_date(1_779_926_400), "28 мая 2026 г.");
    assert_eq!(format_iso_date(1_779_926_400), "2026-05-28");
    assert_eq!(format_ru_date(i64::MIN), "—");
    assert_eq!(format_iso_date(i64::MAX), "—");
}

#[test]
fn month_key_to_russian_converts_correctly() {
    assert_eq!(month_key_to_russian("2026-09"), "Сентябрь 2026");
    assert_eq!(month_key_to_russian("2026-01"), "Январь 2026");
    assert_eq!(month_key_to_russian("2026-12"), "Декабрь 2026");
}

#[test]
fn month_key_to_russian_keeps_unparseable_keys() {
    assert_eq!(month_key_to_russian(""), "");
    assert_eq!(month_key_to_russian("2026-13"), "2026-13");
    assert_eq!(month_key_to_russian("2026"), "2026");
}

#[test]
fn format_period_label_month_mode() {
    let dto = PeriodDto { year: Some(2026), month: Some(9), ..period("month") };
    assert_eq!(format_period_label(&dto), "Сентябрь 2026");
}

#[test]
fn format_period_label_month_mode_january() {
    let dto = PeriodDto { year: Some(2026), month: Some(1), ..period("month") };
    assert_eq!(format_period_label(&dto), "Январь 2026");
}

#[test]
fn format_period_label_month_mode_missing_month_falls_back_to_year() {
    let dto = PeriodDto { year: Some(2026), month: None, ..period("month") };
    assert_eq!(format_period_label(&dto), "2026 год");
}

#[test]
fn format_period_label_month_degradation_matches_year_mode_wording() {
    let degraded = PeriodDto { year: Some(2026), month: None, ..period("month") };
    let year_mode = PeriodDto { year: Some(2026), month: None, ..period("year") };
    assert_eq!(format_period_label(&degraded), format_period_label(&year_mode));
}

#[test]
fn format_period_label_month_mode_out_of_range_month_falls_back_to_year() {
    let dto = PeriodDto { year: Some(2026), month: Some(13), ..period("month") };
    assert_eq!(format_period_label(&dto), "2026 год");
}

#[test]
fn format_period_label_month_mode_missing_year_is_empty() {
    let dto = PeriodDto { year: None, month: Some(9), ..period("month") };
    assert_eq!(format_period_label(&dto), "");
}

#[test]
fn format_period_label_year_mode() {
    let dto = PeriodDto { year: Some(2026), ..period("year") };
    assert_eq!(format_period_label(&dto), "2026 год");
}

#[test]
fn format_period_label_year_mode_missing_year_is_empty() {
    assert_eq!(format_period_label(&period("year")), "");
}

#[test]
fn format_period_label_range_mode() {
    let dto = PeriodDto {
        date_from: Some("2026-01-01".to_string()),
        date_to: Some("2026-03-31".to_string()),
        ..period("range")
    };
    assert_eq!(format_period_label(&dto), "01.01.2026 — 31.03.2026");
}

#[test]
fn format_period_label_range_mode_missing_date_to() {
    let dto = PeriodDto { date_from: Some("2026-01-01".to_string()), date_to: None, ..period("range") };
    assert_eq!(format_period_label(&dto), "01.01.2026");
}

#[test]
fn format_period_label_range_mode_missing_date_from() {
    let dto = PeriodDto { date_from: None, date_to: Some("2026-03-31".to_string()), ..period("range") };
    assert_eq!(format_period_label(&dto), "31.03.2026");
}

#[test]
fn format_period_label_range_mode_malformed_dates_are_empty() {
    let dto = PeriodDto {
        date_from: Some("not-a-date".to_string()),
        date_to: Some("2026-13-99".to_string()),
        ..period("range")
    };
    assert_eq!(format_period_label(&dto), "");
}

#[test]
fn format_period_label_range_mode_missing_both_dates_is_empty() {
    assert_eq!(format_period_label(&period("range")), "");
}

#[test]
fn format_period_label_unknown_mode_never_leaks_english_discriminator() {
    let dto = PeriodDto { year: Some(2026), ..period("bogus") };
    let label = format_period_label(&dto);
    assert_eq!(label, "");
    assert!(!label.contains("bogus"));
}

#[test]
fn periods_end_one_second_before_the_next_starts() {
    for (y, m) in [(2024, 2), (2023, 2), (2000, 2), (1900, 2), (2026, 12), (2026, 4)] {
        let this = PeriodDto { year: Some(y), month: Some(m), ..period("month") };
        let (ny, nm) = if m == 12 { (y + 1, 1) } else { (y, m + 1) };
        let next = PeriodDto { year: Some(ny), month: Some(nm), ..period("month") };
        assert_eq!(compute_period_utc(&this, MOSCOW).1.unwrap() + 1, compute_period_utc(&next, MOSCOW).0.unwrap());
    }
    let y26 = PeriodDto { year: Some(2026), ..period("year") };
    let y27 = PeriodDto { year: Some(2027), ..period("year") };
    assert_eq!(compute_period_utc(&y26, MOSCOW).1.unwrap() + 1, compute_period_utc(&y27, MOSCOW).0.unwrap());
    let range = PeriodDto {
        date_from: Some("2026-06-01".to_string()),
        date_to: Some("2026-06-01".to_string()),
        ..period("range")
    };
    let (s, e) = compute_period_utc(&range, MOSCOW);
    assert_eq!(e.unwrap(), s.unwrap() + 86399);
}

use trackly_app::auth::{
    ad_connection_result, blocked_access_error, login_hash, patch_password_rotates, validate_new_password,
    AdAuthOutcome, RestoreRequestState,
};
use trackly_app::calendar::tz_offset_seconds;
use trackly_app::cartridges::{cartridge_create_action, install_place, prefix_pattern, stale_row_error, validate_model_names};
use trackly_app::dashboard::{consumption_window_start, employee_widgets, low_stock_summary, printers_online};
use trackly_app::devices::{changed_inventory_no, check_ids_request, check_import_size, number_taken, type_id_to_name};
use trackly_app::error::AppError;
use trackly_app::numbering::{
    act_holder_subtitle, act_holder_title, alt_number_shown, cartridge_holder_kind, cartridge_holder_title,
    check_device_context, device_holder_kind, find_doppelganger, template_to_remember, SkeletonHolder,
    TemplateContext,
};
use trackly_app::org::check_logo_inside;
use trackly_app::places::{archive_action, validate_place_name};
use trackly_app::printer::{is_known_address, printer_community};
use trackly_app::query::{check_page_limit, suggest_column, SuggestPersonField};
use trackly_app::reports::{count_request_status, count_snapshot_status, group_rows_by_month, CountQuery};
use trackly_app::text::{parse_i32, parse_u8, parse_usize};

fn validation(field: &str, message: &str) -> AppError {
    AppError::Validation { field: field.to_string(), message: message.to_string() }
}

#[test]
fn known_login_verifies_against_its_hash() {
    let (h, known) = login_hash(Some("$argon2id$stored".to_string()));
    assert_eq!(h, "$argon2id$stored");
    assert!(known);
    let (dummy, known) = login_hash(None);
    assert!(!known);
    assert!(dummy.starts_with("$argon2id$v=19$m=19456,t=2,p=1$c29tZWZpeGVkc2FsdDEy$"));
    assert!(trackly_app::auth::verify_password("trackly-dummy-password", &dummy));
}

#[test]
fn password_rules() {
    assert_eq!(validate_new_password("1234567"), Err(validation("new_password", "Пароль должен быть не менее 8 символов")));
    assert_eq!(validate_new_password("12345678"), Ok(()));
    // Lengths count characters, not bytes: «пароль» has six.
    assert_eq!(validate_new_password("пароль"), Err(validation("new_password", "Пароль должен быть не менее 8 символов")));
    assert_eq!(validate_new_password("парольчик"), Ok(()));
    assert_eq!(patch_password_rotates(Some("пароль")), Err(validation("password", "Пароль должен быть не менее 8 символов")));
    assert_eq!(patch_password_rotates(None), Ok(false));
    assert_eq!(patch_password_rotates(Some("")), Ok(false));
    assert_eq!(patch_password_rotates(Some("short")), Err(validation("password", "Пароль должен быть не менее 8 символов")));
    assert_eq!(patch_password_rotates(Some("long enough")), Ok(true));
}

#[test]
fn ad_test_connection_and_blocked_access() {
    assert_eq!(ad_connection_result(&AdAuthOutcome::Accepted { display_name: "X".to_string() }), Ok(()));
    assert_eq!(
        ad_connection_result(&AdAuthOutcome::BadCreds),
        Err(AppError::ServiceUnavailable { service: "ad".to_string() })
    );
    assert_eq!(
        ad_connection_result(&AdAuthOutcome::Unreachable),
        Err(AppError::ServiceUnavailable { service: "ad".to_string() })
    );
    let e = blocked_access_error(RestoreRequestState { pending: false, rejection_reason: Some("нет".to_string()) });
    assert_eq!(e, AppError::AccessBlocked { pending: false, rejection_reason: Some("нет".to_string()) });
}

#[test]
fn tz_offset_of_moscow_only() {
    assert_eq!(tz_offset_seconds("Europe/Moscow"), 10800);
    assert_eq!(tz_offset_seconds("UTC"), 0);
}

#[test]
fn cartridge_service_rules() {
    assert_eq!(cartridge_create_action(true), "create");
    assert_eq!(cartridge_create_action(false), "custom:cartridge_code_override");
    assert_eq!(install_place(Some(3), Some(Some(9))), Some(3));
    assert_eq!(install_place(None, Some(Some(9))), Some(9));
    assert_eq!(install_place(None, None), None);
    assert_eq!(prefix_pattern("KX-"), "KX-%");
    assert_eq!(stale_row_error("cartridge", 4, 2, None), AppError::NotFound { entity: "cartridge".to_string(), id: 4 });
    assert_eq!(
        stale_row_error("cartridge", 4, 2, Some(5)),
        AppError::OptimisticLockMismatch { entity: "cartridge".to_string(), id: 4, expected: 2, actual: 5 }
    );
    assert_eq!(validate_model_names(" ", "M"), Err(validation("brand", "Укажите бренд модели")));
    assert_eq!(validate_model_names("HP", ""), Err(validation("model", "Укажите название модели")));
    assert_eq!(validate_model_names("HP", "85A"), Ok(()));
}

#[test]
fn dashboard_service_figures() {
    assert_eq!(consumption_window_start(100_000_000, 6), 100_000_000 - 6 * 30 * 86400);
    assert_eq!(printers_online(10, 3), 7);
    let w = employee_widgets(1, 2, 3);
    assert_eq!((w.request_counts_open, w.request_counts_in_progress, w.request_counts_completed), (1, 2, 3));
    assert_eq!(w.devices_total, 0);
    assert!(w.low_stock_models.is_empty());
    let (n, labels) = low_stock_summary(vec![("HP 85A".to_string(), 1), ("Canon 725".to_string(), 0)]);
    assert_eq!(n, 2);
    assert_eq!(labels, vec!["HP 85A".to_string(), "Canon 725".to_string()]);
}

#[test]
fn device_rules() {
    assert_eq!(changed_inventory_no(" 0042 ", &Some("0042".to_string())), None);
    assert_eq!(changed_inventory_no(" 0043 ", &Some("0042".to_string())), Some("0043".to_string()));
    assert_eq!(changed_inventory_no("  ", &Some("0042".to_string())), Some(String::new()));
    assert_eq!(changed_inventory_no("", &None), None);
    assert_eq!(check_ids_request(1000), Ok(()));
    assert_eq!(
        check_ids_request(1001),
        Err(validation("ids", "Нельзя запросить более 1000 устройств за один раз"))
    );
    assert_eq!(check_import_size(50 * 1024 * 1024), Ok(()));
    assert_eq!(check_import_size(50 * 1024 * 1024 + 1), Err(validation("file", "Файл больше 50 МБ")));
    assert_eq!(number_taken("INV-1"), AppError::Conflict { reason: "номер уже занят — INV-1".to_string() });
    assert_eq!(type_id_to_name(2), "Расходник");
    assert_eq!(type_id_to_name(1), "Устройство");
}

#[test]
fn number_holders() {
    assert_eq!(act_holder_title("return"), "Акт возврата");
    assert_eq!(act_holder_title("handover"), "Акт передачи");
    assert_eq!(act_holder_subtitle("Иванов", "Петров"), "Передал: Иванов · Принял: Петров");
    assert_eq!(cartridge_holder_kind(2), "drum");
    assert_eq!(cartridge_holder_kind(1), "cartridge");
    assert_eq!(cartridge_holder_title("HP", "85A"), "HP 85A");
    assert_eq!(device_holder_kind(2), "printer");
    assert_eq!(device_holder_kind(1), "device");
    assert!(alt_number_shown(true, false, true));
    assert!(!alt_number_shown(true, true, true));
    assert!(!alt_number_shown(false, false, true));
    assert_eq!(template_to_remember(Some(4), false), Some(4));
    assert_eq!(template_to_remember(Some(4), true), None);
    assert_eq!(check_device_context(TemplateContext::PrinterCreate), Ok(()));
    assert_eq!(
        check_device_context(TemplateContext::ActCreate),
        Err(validation("context", "Недопустимый контекст для создания устройства."))
    );
}

#[test]
fn doppelganger_skips_the_edited_record() {
    let rows = vec![
        SkeletonHolder { id: 1, skeleton: "AB12".to_string() },
        SkeletonHolder { id: 2, skeleton: "AB12".to_string() },
        SkeletonHolder { id: 3, skeleton: "CD".to_string() },
    ];
    assert_eq!(find_doppelganger(&rows, "AB12", None), Some(0));
    assert_eq!(find_doppelganger(&rows, "AB12", Some(1)), Some(1));
    assert_eq!(find_doppelganger(&rows, "XY", None), None);
}

#[test]
fn logo_must_stay_inside_the_folder() {
    let folder = vec!["C:".to_string(), "Trackly".to_string()];
    let inside = vec!["C:".to_string(), "Trackly".to_string(), "logo.png".to_string()];
    let outside = vec!["C:".to_string(), "Other".to_string(), "logo.png".to_string()];
    assert_eq!(check_logo_inside(&inside, &folder, "C:/Trackly/logo.png"), Ok(()));
    assert_eq!(
        check_logo_inside(&outside, &folder, "C:/Other/logo.png"),
        Err(validation("org.logo_path", "Путь к логотипу вне рабочей папки: C:/Other/logo.png"))
    );
}

#[test]
fn place_rules() {
    assert_eq!(archive_action(true), "archive");
    assert_eq!(archive_action(false), "unarchive");
    assert_eq!(validate_place_name("  "), Err(validation("name", "Название обязательно для заполнения")));
    assert_eq!(validate_place_name("Склад"), Ok(()));
}

#[test]
fn printer_helpers() {
    let known = vec![None, Some("10.0.0.5".to_string())];
    assert!(is_known_address(&known, "10.0.0.5"));
    assert!(!is_known_address(&known, "10.0.0.6"));
    assert_eq!(printer_community(&None), "public");
    assert_eq!(printer_community(&Some("private".to_string())), "private");
}

#[test]
fn query_helpers() {
    assert_eq!(check_page_limit(200), Ok(()));
    assert_eq!(check_page_limit(201), Err(validation("pagination.limit", "Максимум 200 элементов на страницу")));
    assert_eq!(suggest_column(SuggestPersonField::Giver), ("giver_name", true));
    assert_eq!(suggest_column(SuggestPersonField::Receiver), ("receiver_name", false));
}

#[test]
fn count_statuses() {
    assert_eq!(count_request_status(CountQuery::RequestsOpen), Some("open"));
    assert_eq!(count_request_status(CountQuery::RequestsAll), None);
    assert_eq!(count_snapshot_status(CountQuery::CartridgesInStock), Some("На складе"));
    assert_eq!(count_snapshot_status(CountQuery::DevicesInUse), Some("В работе"));
    assert_eq!(count_snapshot_status(CountQuery::HandoverActs), None);
}

#[test]
fn rows_are_grouped_by_month_in_order() {
    let keys = vec![Some("2026-09".to_string()), None, Some("2026-10".to_string()), Some("2026-10".to_string())];
    let rows: Vec<Vec<String>> = (0..4).map(|i| vec![i.to_string()]).collect();
    let groups = group_rows_by_month(&keys, rows);
    assert_eq!(groups.len(), 2);
    assert_eq!(groups[0].month_label, "Сентябрь 2026");
    assert_eq!(groups[0].rows, vec![vec!["0".to_string()], vec!["1".to_string()]]);
    assert_eq!(groups[1].month_label, "Октябрь 2026");
    assert_eq!(groups[1].rows.len(), 2);
}

#[test]
fn integer_parsing_follows_from_str() {
    assert_eq!(parse_i32("-2147483648"), Some(i32::MIN));
    assert_eq!(parse_i32("2147483648"), None);
    assert_eq!(parse_i32("+7"), Some(7));
    assert_eq!(parse_u8("256"), None);
    assert_eq!(parse_u8("-1"), None);
    assert_eq!(parse_usize("42"), Some(42));
    assert_eq!(parse_usize(""), None);
}

use trackly_app::devices::{
    build_device_new_from_row, check_bulk_count, creation_row_error, normalize_inventory_no, plan_import_row,
    printer_sync, resolve_status_id, resolve_type_id, status_id_to_name, validate_device_new, DeviceNew, PrinterSync,
    RowPlan, DeviceExportRow, export_devices_csv, check_device_page_limit, status_filter_ids,
    import_session, import_token,
};
use trackly_app::error::AppError;

fn s(v: &str) -> String {
    v.to_string()
}

fn headers() -> Vec<String> {
    vec![s("Наименование"), s("Инв"), s("Место"), s("Статус")]
}

fn mapping() -> Vec<(String, String)> {
    vec![(s("Наименование"), s("name")), (s("Инв"), s("inventory_no")), (s("Место"), s("place")), (s("Статус"), s("status"))]
}

#[test]
fn labels_and_names() {
    assert_eq!(resolve_type_id(Some("расходник")), 2);
    assert_eq!(resolve_type_id(Some("Принтер")), 1);
    assert_eq!(resolve_status_id(Some("На ремонте")), 3);
    assert_eq!(resolve_status_id(None), 1);
    assert_eq!(status_id_to_name(4), "Списано");
    assert_eq!(status_id_to_name(99), "На складе");
    assert_eq!(printer_sync(2), PrinterSync::EnsurePrinter);
    assert_eq!(printer_sync(1), PrinterSync::DeletePrinter);
    assert_eq!(printer_sync(7), PrinterSync::Keep);
    assert_eq!(normalize_inventory_no(&Some(s("  INV-1 "))), Some(s("INV-1")));
    assert_eq!(normalize_inventory_no(&Some(s("   "))), None);
}

#[test]
fn device_validation_and_bulk() {
    let d = DeviceNew {
        type_id: 1,
        name: s(" "),
        inventory_no: None,
        serial_no: None,
        model: None,
        specs: None,
        kit: None,
        state: None,
        place_id: None,
        status_id: 1,
    };
    match validate_device_new(&d) {
        Err(AppError::Validation { field, .. }) => assert_eq!(field, "name"),
        _ => panic!("expected a validation error"),
    }
    assert!(check_bulk_count(0, &None, &None).is_err());
    assert!(check_bulk_count(5, &Some(s("  ")), &None).is_ok());
    assert!(check_bulk_count(5, &Some(s("A1")), &None).is_err());
    assert!(check_bulk_count(1, &Some(s("A1")), &None).is_ok());
}

#[test]
fn row_building_uses_the_mapping() {
    let row = vec![s(" Принтер HP "), s(" 77 "), s(""), s("В работе")];
    let (d, place) = build_device_new_from_row(&row, &headers(), &mapping()).unwrap();
    assert_eq!(d.name, "Принтер HP");
    assert_eq!(d.inventory_no, Some(s("77")));
    assert_eq!(d.status_id, 2);
    assert_eq!(place, None);
    let missing = vec![s(""), s("1"), s(""), s("")];
    assert_eq!(build_device_new_from_row(&missing, &headers(), &mapping()).unwrap_err(), "Наименование обязательно для заполнения");
}

#[test]
fn import_rows_detect_repeats_and_unknown_places() {
    let places = vec![(s("Здание А / Склад"), 11)];
    let mut seen: Vec<(String, u64)> = Vec::new();
    let r1 = plan_import_row(1, &vec![s("Ноутбук"), s("Inv-1"), s("здание а / склад"), s("")], &headers(), &mapping(), &places, &mut seen);
    match r1 {
        RowPlan::Create(d) => assert_eq!(d.place_id, Some(11)),
        RowPlan::Fail(_) => panic!("row 1 should be created"),
    }
    let r2 = plan_import_row(2, &vec![s("Мышь"), s(" INV-1"), s(""), s("")], &headers(), &mapping(), &places, &mut seen);
    match r2 {
        RowPlan::Fail(e) => {
            assert_eq!(e.row_index, 2);
            assert_eq!(e.error_code, "Validation");
            assert_eq!(e.error_message, "номер уже занят — INV-1 (повтор строки 1)");
        }
        RowPlan::Create(_) => panic!("row 2 repeats a number"),
    }
    let r3 = plan_import_row(3, &vec![s("Стол"), s(""), s("Нет такого"), s("")], &headers(), &mapping(), &places, &mut seen);
    match r3 {
        RowPlan::Fail(e) => assert_eq!(e.error_message, "место «Нет такого» не найдено в дереве."),
        RowPlan::Create(_) => panic!("row 3 has an unknown place"),
    }
    let e = creation_row_error(4, &AppError::NotFound { entity: s("device"), id: 3 });
    assert_eq!((e.error_code.as_str(), e.error_message.as_str()), ("NotFound", "device 3 не найден"));
    let e = creation_row_error(4, &AppError::Validation { field: s("name"), message: s("m") });
    assert_eq!(e.error_code, "Validation:name");
}

#[test]
fn device_export_has_russian_header_and_safe_cells() {
    let rows = vec![DeviceExportRow {
        type_id: 2,
        name: "=cmd".to_string(),
        inventory_no: Some("A1".to_string()),
        serial_no: None,
        model: None,
        specs: None,
        kit: None,
        state: None,
        full_path: Some("Офис / Каб 1".to_string()),
        status_id: 3,
    }];
    let text = export_devices_csv(&rows).unwrap();
    assert_eq!(
        text,
        "\u{FEFF}Тип;Наименование;Инвентарный №;Серийный №;Модель;Технические характеристики;Комплектация;Состояние;Место;Статус\nРасходник;'=cmd;A1;;;;;;Офис / Каб 1;На ремонте\n"
    );
}

#[test]
fn empty_device_export_is_the_header() {
    let text = export_devices_csv(&Vec::new()).unwrap();
    assert!(text.starts_with('\u{FEFF}'));
    assert_eq!(text.lines().count(), 1);
}

#[test]
fn device_pages_and_status_filters() {
    assert_eq!(check_device_page_limit(200), Ok(()));
    assert_eq!(
        check_device_page_limit(201),
        Err(AppError::Validation {
            field: "pagination.limit".to_string(),
            message: "Максимальный размер страницы — 200".to_string()
        })
    );
    assert_eq!(status_filter_ids(&Vec::new(), &Vec::new()), Ok(None));
    let codes = vec!["в_работе".to_string(), "bogus".to_string(), "x".to_string()];
    assert_eq!(
        status_filter_ids(&codes, &vec![Some(2), None, None]),
        Err(AppError::Validation { field: "status_in".to_string(), message: "Unknown status code: bogus".to_string() })
    );
    assert_eq!(status_filter_ids(&codes, &vec![Some(2), Some(1), Some(4)]), Ok(Some(vec![2, 1, 4])));
}

#[test]
fn import_commit_token_and_session() {
    assert_eq!(
        import_token("550e8400-e29b-41d4-a716-446655440000"),
        Ok(0x550e8400_e29b_41d4_a716_446655440000u128)
    );
    assert_eq!(
        import_token("not-a-token"),
        Err(AppError::Validation { field: "token".to_string(), message: "Некорректный токен".to_string() })
    );
    assert_eq!(import_session(Some(7)), Ok(7));
    assert_eq!(
        import_session::<i32>(None),
        Err(AppError::Validation {
            field: "token".to_string(),
            message: "Сессия истекла или уже использована".to_string()
        })
    );
}

use trackly_app::reports::{
    category_filter_clause, export_csv, report_count_plan, report_counts, row_field, CountQuery, ReportRow,
};

fn make_row(month_key: &str, device_name: &str, giver: &str) -> ReportRow {
    ReportRow {
        id: 1,
        month_key: Some(month_key.to_string()),
        number: Some("42".to_string()),
        sub_number: None,
        giver_name: Some(giver.to_string()),
        receiver_name: Some("Иванов И.И.".to_string()),
        handover_date_utc: Some(1_780_000_000),
        place_path: Some("Склад №1".to_string()),
        act_type: Some("handover".to_string()),
        device_name: Some(device_name.to_string()),
        quantity: Some(1),
        code: None,
        model_label: None,
        status_name: None,
        request_type_label: None,
    }
}

const MOSCOW: i32 = 10800;

#[test]
fn category_filter_clause_none_means_all_no_restriction() {
    let (clause, params) = category_filter_clause(None, 0);
    assert_eq!(clause, None);
    assert!(params.is_empty());
}

#[test]
fn category_filter_clause_empty_selection_yields_zero_rows() {
    let keys: Vec<String> = Vec::new();
    let (clause, params) = category_filter_clause(Some(&keys), 0);
    assert_eq!(clause, Some("1 = 0".to_string()));
    assert!(params.is_empty());
}

#[test]
fn category_filter_clause_known_type_key_no_new_bind_param() {
    let keys = vec!["ad_register".to_string()];
    let (clause, params) = category_filter_clause(Some(&keys), 0);
    let clause = clause.unwrap();
    assert!(clause.contains("r.request_type = 'ad_register'"), "clause: {clause}");
    assert!(params.is_empty());
}

#[test]
fn category_filter_clause_category_key_binds_ru_name_param() {
    let keys = vec!["repair".to_string()];
    let (clause, params) = category_filter_clause(Some(&keys), 0);
    let clause = clause.unwrap();
    assert!(clause.contains("SELECT id FROM request_categories WHERE name = ?"), "clause: {clause}");
    assert_eq!(params.len(), 1);
}

#[test]
fn category_filter_clause_unknown_key_yields_zero_rows() {
    let keys = vec!["unknown_future_key".to_string()];
    let (clause, params) = category_filter_clause(Some(&keys), 0);
    assert_eq!(clause, Some("1 = 0".to_string()));
    assert!(params.is_empty());
}

#[test]
fn category_filter_clause_known_plus_unknown_ignores_unknown() {
    let keys = vec!["ad_register".to_string(), "unknown".to_string()];
    let (clause, params) = category_filter_clause(Some(&keys), 0);
    let clause = clause.unwrap();
    assert!(clause.contains("r.request_type = 'ad_register'"), "clause: {clause}");
    assert!(!clause.contains("unknown"), "clause: {clause}");
    assert!(params.is_empty());
}

#[test]
fn category_filter_clause_numbers_parameters_after_existing_ones() {
    let keys = vec!["repair".to_string(), "no_category".to_string(), "software".to_string()];
    let (clause, params) = category_filter_clause(Some(&keys), 2);
    assert_eq!(
        clause.unwrap(),
        "((r.request_type = 'free_form' AND r.category_id = (SELECT id FROM request_categories WHERE name = ?3)) OR \
         (r.request_type = 'free_form' AND r.category_id IS NULL) OR \
         (r.request_type = 'free_form' AND r.category_id = (SELECT id FROM request_categories WHERE name = ?4)))"
    );
    assert_eq!(params, vec!["Ремонт техники".to_string(), "Программное обеспечение".to_string()]);
}

#[test]
fn row_field_printer_place_combines_device_name_and_place_path() {
    let mut row = make_row("2026-08", "Kyocera-01", "Иванов И.И.");
    row.device_name = Some("Kyocera-01".to_string());
    row.place_path = Some("Здание А / 2 этаж / Кабинет 214".to_string());
    assert_eq!(row_field(&row, "printer_place", 0), "Kyocera-01, Здание А / 2 этаж / Кабинет 214");
}

#[test]
fn row_field_printer_place_empty_when_no_printer_and_no_place() {
    let mut row = make_row("2026-08", "Kyocera-01", "Иванов И.И.");
    row.device_name = None;
    row.place_path = None;
    assert_eq!(row_field(&row, "printer_place", 0), "");
}

#[test]
fn row_field_handover_date_absent_is_empty() {
    let mut row = make_row("2026-08", "Kyocera-01", "Иванов И.И.");
    row.handover_date_utc = None;
    assert_eq!(row_field(&row, "handover_date_utc", MOSCOW), "");
}

#[test]
fn row_field_plain_columns() {
    let row = make_row("2026-08", "Kyocera-01", "Петров П.П.");
    assert_eq!(row_field(&row, "number", 0), "42");
    assert_eq!(row_field(&row, "giver_name", 0), "Петров П.П.");
    assert_eq!(row_field(&row, "quantity", 0), "1");
    assert_eq!(row_field(&row, "sub_number", 0), "");
    assert_eq!(row_field(&row, "no_such_column", 0), "");
    assert_eq!(row_field(&row, "handover_date_utc", MOSCOW), "28.05.26, 23:26");
}

#[test]
fn report_counts_plan_and_failed_counts_show_zero() {
    let plan = report_count_plan("devices");
    assert_eq!(
        plan,
        vec![CountQuery::HandoverActs, CountQuery::ReturnActs, CountQuery::DevicesInUse, CountQuery::DevicesInStock]
    );
    assert!(report_count_plan("bogus").is_empty());
    let counts = report_counts(&plan, &vec![Some(3), None, Some(7), Some(0)]);
    let keys: Vec<&str> = counts.iter().map(|c| c.key.as_str()).collect();
    assert_eq!(keys, vec!["acts", "returns", "in_use", "in_stock"]);
    let values: Vec<i64> = counts.iter().map(|c| c.count).collect();
    assert_eq!(values, vec![3, 0, 7, 0]);
}

#[test]
fn export_csv_bom_header_and_formula_guard() {
    let mut row = make_row("2026-08", "=HYPERLINK(1)", "Петров П.П.");
    row.handover_date_utc = None;
    let cols = vec!["device_name".to_string(), "giver_name".to_string(), "quantity".to_string()];
    let bytes = export_csv(&vec![row], &cols, MOSCOW).unwrap();
    let text = String::from_utf8(bytes).unwrap();
    assert_eq!(text, "\u{FEFF}device_name;giver_name;quantity\n'=HYPERLINK(1);Петров П.П.;1\n");
}

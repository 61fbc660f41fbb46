use trackly_app::report_sql::{
    acts_filter, assemble, cartridge_audit_filter, cartridge_snapshot_filter, device_snapshot_filter,
    request_report_row, requests_filter, QueryParts, ReportFilter, SqlValue, ACTS_COUNT_HEAD, ACTS_LIST_HEAD,
    ACTS_LIST_TAIL, REQUESTS_COUNT_HEAD, STORAGE_CTE,
};

fn no_filter() -> ReportFilter {
    ReportFilter {
        place_id: None,
        type_id: None,
        status_id: None,
        model_id: None,
        color: None,
        search: None,
        is_storage: None,
        request_category_filter: None,
    }
}

const SUBTREE_7: &str = "subtree(id) AS ( SELECT id FROM places WHERE id = ?4 AND deleted_at_utc IS NULL UNION ALL SELECT p.id FROM places p JOIN subtree s ON p.parent_id = s.id WHERE p.deleted_at_utc IS NULL ) ";

#[test]
fn acts_filter_without_options_binds_only_the_type() {
    let q = acts_filter(&no_filter(), None, None, "handover");
    assert_eq!(q.with_prefix, "");
    assert_eq!(q.clauses, vec!["a.act_type = ?1".to_string(), "a.deleted_at_utc IS NULL".to_string()]);
    assert_eq!(q.params, vec![SqlValue::Text("handover".to_string())]);
}

#[test]
fn acts_filter_numbers_every_parameter_in_order() {
    let mut f = no_filter();
    f.place_id = Some(7);
    f.type_id = Some(3);
    f.search = Some("Иван".to_string());
    f.is_storage = Some(true);
    let q = acts_filter(&f, Some(100), Some(200), "return");
    assert_eq!(
        q.clauses,
        vec![
            "a.act_type = ?1".to_string(),
            "a.deleted_at_utc IS NULL".to_string(),
            "a.handover_date_utc >= ?2".to_string(),
            "a.handover_date_utc <= ?3".to_string(),
            "a.place_id IN (SELECT id FROM subtree)".to_string(),
            "d.type_id = ?5".to_string(),
            "(a.number LIKE ?6 OR a.giver_name LIKE ?6 OR a.receiver_name LIKE ?6)".to_string(),
            "a.place_id IN (SELECT id FROM storage_ids)".to_string(),
        ]
    );
    assert_eq!(
        q.params,
        vec![
            SqlValue::Text("return".to_string()),
            SqlValue::Int(100),
            SqlValue::Int(200),
            SqlValue::Int(7),
            SqlValue::Int(3),
            SqlValue::Text("%Иван%".to_string()),
        ]
    );
    let expected_prefix = format!("WITH RECURSIVE {}, {}", SUBTREE_7.trim_end(), STORAGE_CTE);
    assert_eq!(q.with_prefix, expected_prefix);
}

#[test]
fn storage_filter_outside_storage_keeps_unplaced_rows() {
    let mut f = no_filter();
    f.is_storage = Some(false);
    let q = device_snapshot_filter(&f, "На складе");
    assert_eq!(q.with_prefix, format!("WITH RECURSIVE {}", STORAGE_CTE));
    assert_eq!(
        q.clauses,
        vec![
            "d.deleted_at_utc IS NULL".to_string(),
            "d.status_id = (SELECT id FROM device_statuses WHERE name = ?1 LIMIT 1)".to_string(),
            "(d.place_id IS NULL OR d.place_id NOT IN (SELECT id FROM storage_ids))".to_string(),
        ]
    );
    assert_eq!(q.params, vec![SqlValue::Text("На складе".to_string())]);
}

#[test]
fn device_snapshot_prefers_the_chosen_status() {
    let mut f = no_filter();
    f.status_id = Some(4);
    f.type_id = Some(2);
    let q = device_snapshot_filter(&f, "В работе");
    assert_eq!(
        q.clauses,
        vec!["d.deleted_at_utc IS NULL".to_string(), "d.status_id = ?1".to_string(), "d.type_id = ?2".to_string()]
    );
    assert_eq!(q.params, vec![SqlValue::Int(4), SqlValue::Int(2)]);
}

#[test]
fn cartridge_audit_lists_each_action() {
    let mut f = no_filter();
    f.color = Some("black".to_string());
    let actions = vec!["custom:to_refill".to_string(), "custom:from_refill".to_string()];
    let q = cartridge_audit_filter(&f, Some(10), None, &actions, None);
    assert_eq!(
        q.clauses,
        vec![
            "al.entity_type = 'cartridge'".to_string(),
            "al.action IN (?1, ?2)".to_string(),
            "al.created_at_utc >= ?3".to_string(),
            "m.color = ?4".to_string(),
        ]
    );
    assert_eq!(
        q.params,
        vec![
            SqlValue::Text("custom:to_refill".to_string()),
            SqlValue::Text("custom:from_refill".to_string()),
            SqlValue::Int(10),
            SqlValue::Text("black".to_string()),
        ]
    );
}

#[test]
fn cartridge_snapshot_with_model_and_place() {
    let mut f = no_filter();
    f.model_id = Some(9);
    f.place_id = Some(5);
    let q = cartridge_snapshot_filter(&f, "В работе", None);
    assert_eq!(
        q.clauses,
        vec![
            "c.deleted_at_utc IS NULL".to_string(),
            "c.status_id = (SELECT id FROM cartridge_statuses WHERE name = ?1 LIMIT 1)".to_string(),
            "m.id = ?2".to_string(),
            "c.place_id IN (SELECT id FROM subtree)".to_string(),
        ]
    );
    assert!(q.with_prefix.starts_with("WITH RECURSIVE subtree(id) AS ( SELECT id FROM places WHERE id = ?3 "));
    assert_eq!(q.params, vec![SqlValue::Text("В работе".to_string()), SqlValue::Int(9), SqlValue::Int(5)]);
}

#[test]
fn requests_filter_binds_categories_after_the_status() {
    let cats = vec!["repair".to_string(), "ad_register".to_string(), "bogus".to_string()];
    let q = requests_filter(
        Some(1),
        None,
        Some("open"),
        Some("r.request_type != 'ad_register'"),
        Some(&cats),
        None,
        None,
    );
    assert_eq!(
        q.clauses,
        vec![
            "r.deleted_at_utc IS NULL".to_string(),
            "r.status = ?1".to_string(),
            "r.request_type != 'ad_register'".to_string(),
            "((r.request_type = 'free_form' AND r.category_id = (SELECT id FROM request_categories WHERE name = ?2)) OR r.request_type = 'ad_register')".to_string(),
            "r.created_at_utc >= ?3".to_string(),
        ]
    );
    assert_eq!(
        q.params,
        vec![
            SqlValue::Text("open".to_string()),
            SqlValue::Text("Ремонт техники".to_string()),
            SqlValue::Int(1),
        ]
    );
}

#[test]
fn requests_filter_with_empty_selection_matches_nothing() {
    let cats: Vec<String> = Vec::new();
    let q = requests_filter(None, None, None, None, Some(&cats), None, None);
    assert_eq!(q.clauses, vec!["r.deleted_at_utc IS NULL".to_string(), "1 = 0".to_string()]);
    assert!(q.params.is_empty());
}

#[test]
fn assemble_joins_clauses_with_and() {
    let q = acts_filter(&no_filter(), None, None, "handover");
    let count = assemble(&q, ACTS_COUNT_HEAD, "");
    assert_eq!(
        count,
        "SELECT COUNT(DISTINCT a.id) FROM acts a LEFT JOIN act_items ai ON ai.act_id = a.id LEFT JOIN devices d ON d.id = ai.device_id WHERE a.act_type = ?1 AND a.deleted_at_utc IS NULL"
    );
    let list = assemble(&q, ACTS_LIST_HEAD, ACTS_LIST_TAIL);
    assert!(list.starts_with("SELECT a.id, strftime('%Y-%m'"));
    assert!(list.ends_with("WHERE a.act_type = ?1 AND a.deleted_at_utc IS NULL GROUP BY a.id ORDER BY a.handover_date_utc ASC, a.id ASC LIMIT 1000"));
}

#[test]
fn assemble_of_empty_parts_is_head_and_tail() {
    let q = QueryParts::new();
    assert_eq!(assemble(&q, REQUESTS_COUNT_HEAD, ""), REQUESTS_COUNT_HEAD.to_string());
}

#[test]
fn request_row_translates_status_and_type() {
    let row = request_report_row(
        42,
        Some("2026-03".to_string()),
        Some(1_700_000_000),
        "cartridge_replace",
        "in_progress",
        Some("Петров".to_string()),
        Some("HP".to_string()),
        None,
    );
    assert_eq!(row.number, Some("42".to_string()));
    assert_eq!(row.giver_name, Some("Петров".to_string()));
    assert_eq!(row.device_name, Some("HP".to_string()));
    assert_eq!(row.handover_date_utc, Some(1_700_000_000));
    assert_eq!(row.status_name, Some("В работе".to_string()));
    assert_eq!(row.request_type_label, Some("Замена картриджа".to_string()));
    assert_eq!(row.sub_number, None);
}

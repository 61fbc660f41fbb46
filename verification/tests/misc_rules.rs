use trackly_app::backup::{check_integrity, is_backup_file_name, retention_victims};
use trackly_app::cartridges::{check_model_unused, model_exists, validate_cartridge_create};
use trackly_app::dashboard::{devices_total, low_stock_threshold, request_tally_where, tally_requests, StatusCount};
use trackly_app::error::AppError;
use trackly_app::numbering::{find_occupying, mismatch_text, script_mix_text, NumberHolder, TemplateContext};
use trackly_app::org::logo_data_uri;
use trackly_app::places::{actor_display, duplicate_name_error, is_duplicate_name_conflict};
use trackly_app::printer::{ipv4_text, parse_ip_range, parse_ipv4};
use trackly_app::query::{build_fts_query, escape_like, search_terms, suggest_params};

#[test]
fn like_escaping_and_fts() {
    assert_eq!(escape_like(r"50%_a\b"), r"50\%\_a\\b");
    assert_eq!(build_fts_query("  hp  la\"ser \0 "), "\"hp\"* \"la\"\"ser\"*");
    assert_eq!(build_fts_query("   "), "");
    let t = search_terms("  Ива%нов ").unwrap();
    assert_eq!(t.plain, "%Ива нов%");
    assert_eq!(t.fts, "\"Ива\"* \"нов\"*");
    assert!(search_terms("  ").is_none());
    let (p, l) = suggest_params("Ив_", 50).unwrap();
    assert_eq!((p.as_str(), l), (r"Ив\_%", 20));
    assert_eq!(suggest_params("a", 0).unwrap().1, 1);
    assert!(suggest_params(&"я".repeat(101), 5).is_err());
}

#[test]
fn ipv4_parsing() {
    assert_eq!(parse_ipv4("192.168.1.10"), Some(0xC0A8010A));
    assert_eq!(parse_ipv4("192.168.01.10"), None);
    assert_eq!(parse_ipv4("256.1.1.1"), None);
    assert_eq!(parse_ipv4("1.2.3"), None);
    assert_eq!(ipv4_text(0xC0A8010A), "192.168.1.10");
    match parse_ip_range("10.0.0.1", "x") {
        Err(AppError::Validation { field, .. }) => assert_eq!(field, "ip_end"),
        _ => panic!("expected a validation error"),
    }
}

#[test]
fn backup_retention_keeps_newest() {
    assert!(is_backup_file_name("trackly-backup-17.db"));
    assert!(!is_backup_file_name("trackly-backup-17.db.tmp"));
    assert!(!is_backup_file_name("other.db"));
    assert_eq!(retention_victims(&vec![30, 10, 20, 10], 2), vec![1, 3]);
    assert_eq!(retention_victims(&vec![5, 6], 0), vec![0]);
    assert!(retention_victims(&vec![5, 6], 7).is_empty());
    assert!(check_integrity("ok").is_ok());
    assert!(matches!(check_integrity("bad page"), Err(AppError::Validation { .. })));
}

#[test]
fn cartridge_rules() {
    assert!(validate_cartridge_create(3, &Some("К-1".to_string())).is_ok());
    assert!(matches!(validate_cartridge_create(0, &None), Err(AppError::Validation { .. })));
    match validate_cartridge_create(3, &Some("a\u{1}b".to_string())) {
        Err(AppError::Validation { message, .. }) => assert_eq!(message, "Код содержит недопустимые символы"),
        _ => panic!("expected a validation error"),
    }
    match validate_cartridge_create(3, &Some("x".repeat(33))) {
        Err(AppError::Validation { message, .. }) => assert_eq!(message, "Код не должен превышать 32 символа"),
        _ => panic!("expected a validation error"),
    }
    match model_exists(" HP ", "85A ") {
        AppError::Conflict { reason } => assert_eq!(reason, "Модель «HP 85A» уже существует"),
        _ => panic!("expected a conflict"),
    }
    match check_model_unused(3) {
        Err(AppError::Conflict { reason }) => assert_eq!(reason, "Нельзя удалить модель: она используется 3 картриджами"),
        _ => panic!("expected a conflict"),
    }
}

#[test]
fn dashboard_figures() {
    let by_status = vec![
        StatusCount { status_name: "В работе".to_string(), count: 4 },
        StatusCount { status_name: "На складе".to_string(), count: 6 },
    ];
    assert_eq!(devices_total(&by_status), 10);
    assert_eq!(low_stock_threshold(Some(" 5 ")), 5);
    assert_eq!(low_stock_threshold(Some("0")), 2);
    assert_eq!(low_stock_threshold(Some("x")), 2);
    assert_eq!(low_stock_threshold(None), 2);
    let rows = vec![
        ("open".to_string(), 2),
        ("rejected".to_string(), 9),
        ("completed".to_string(), 1),
        ("open".to_string(), 3),
    ];
    assert_eq!(tally_requests(&rows), (5, 0, 1));
    let (clauses, params) = request_tally_where(Some(8), Some(100), None);
    assert_eq!(params, vec![8, 100]);
    assert_eq!(clauses.last().unwrap(), "r.created_at_utc >= ?2");
}

#[test]
fn places_and_numbering_texts() {
    assert!(is_duplicate_name_conflict(&AppError::Conflict {
        reason: "UNIQUE constraint failed: idx_places_parent_name_unique".to_string()
    }));
    assert!(!is_duplicate_name_conflict(&AppError::Conflict { reason: "other".to_string() }));
    match duplicate_name_error(&None, "Склад") {
        AppError::Validation { message, .. } => {
            assert_eq!(message, "Место «Склад» уже существует в списке корневых мест. Укажите другое имя.")
        }
        _ => panic!("expected a validation error"),
    }
    assert_eq!(actor_display(Some(1), &Some(String::new()), &Some("ivan".to_string())), "ivan");
    assert_eq!(actor_display(None, &Some("x".to_string()), &None), "система");
    let rows = vec![
        NumberHolder { id: 1, raw_value: " inv-7 ".to_string() },
        NumberHolder { id: 2, raw_value: "INV-7".to_string() },
    ];
    assert_eq!(find_occupying(&rows, "Inv-7", None), Some(0));
    assert_eq!(find_occupying(&rows, "Inv-7", Some(1)), Some(1));
    assert_eq!(find_occupying(&rows, "  ", None), None);
    assert!(script_mix_text("A1", Some(("device", "Ноутбук"))).ends_with("(device «Ноутбук»), но записан другими буквами."));
    assert!(mismatch_text("7", "NN", TemplateContext::PrinterCreate).contains("«Новый принтер»"));
}

#[test]
fn logo_uri_embeds_base64() {
    assert_eq!(logo_data_uri(&vec![1, 2, 3, 255], None), "data:image/png;base64,AQID/w==");
    assert_eq!(logo_data_uri(&vec![], Some("image/svg+xml")), "data:image/svg+xml;base64,");
}

#[test]
fn ipv4_text_parses_back() {
    for ip in [0u32, 1, 255, 256, 0x0A000001, 0xC0A8010A, 0x7F000001, u32::MAX] {
        assert_eq!(parse_ipv4(&ipv4_text(ip)), Some(ip));
    }
}

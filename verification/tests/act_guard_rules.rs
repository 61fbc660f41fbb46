use trackly_app::acts::{
    act_date, added_complectation, check_act_deletable, check_device_in_act, check_device_in_parent,
    check_in_work, check_on_warehouse, complectation_update, item_parent_row, location_source, next_act_number,
    number_change, retained_needs_change, return_act_names, validate_update_return, ActReturnItem, ActState,
    ActType, ActUpdateItem, ActUpdateReturnDto, LocationSource,
};
use trackly_app::error::AppError;

fn act(deleted: bool, version: i64) -> ActState {
    ActState {
        id: 12,
        number: 40,
        act_type: ActType::Handover,
        version,
        deleted,
        archived: false,
        parent_act_id: None,
    }
}

#[test]
fn deleting_needs_a_live_act_of_the_seen_version() {
    assert_eq!(check_act_deletable(&act(false, 3), 3), Ok(()));
    assert_eq!(
        check_act_deletable(&act(true, 3), 3),
        Err(AppError::NotFound { entity: "act".to_string(), id: 12 })
    );
    assert_eq!(
        check_act_deletable(&act(false, 4), 3),
        Err(AppError::OptimisticLockMismatch { entity: "act".to_string(), id: 12, expected: 3, actual: 4 })
    );
}

#[test]
fn device_status_guards_name_the_device() {
    assert_eq!(check_on_warehouse(5, 1, 1), Ok(()));
    assert_eq!(
        check_on_warehouse(5, 2, 1),
        Err(AppError::Conflict {
            reason: "Устройство id=5 больше не на складе — обновите список и повторите.".to_string()
        })
    );
    assert_eq!(check_in_work(9, 2, 2), Ok(()));
    assert_eq!(
        check_in_work(9, 1, 2),
        Err(AppError::Conflict {
            reason: "Устройство id=9 уже не в работе — возможно, оно уже возвращено".to_string()
        })
    );
}

#[test]
fn returned_devices_must_belong_to_the_parent() {
    assert_eq!(check_device_in_act(0, 7, true, 40), Ok(()));
    assert_eq!(
        check_device_in_act(2, 7, false, 40),
        Err(AppError::Validation {
            field: "items[2].device_ids".to_string(),
            message: "device_id=7 не принадлежит акту №40".to_string()
        })
    );
    assert_eq!(check_device_in_parent(7, true), Ok(()));
    assert_eq!(
        check_device_in_parent(7, false),
        Err(AppError::Validation {
            field: "items".to_string(),
            message: "device_id=7 не принадлежит родительскому акту".to_string()
        })
    );
}

#[test]
fn numbers_change_only_when_overridden_with_another_value() {
    assert_eq!(number_change(Some(41), 40), Some(41));
    assert_eq!(number_change(Some(40), 40), None);
    assert_eq!(number_change(None, 40), None);
    assert_eq!(next_act_number(40), 41);
}

#[test]
fn act_defaults() {
    assert_eq!(act_date(Some(100), 500), 100);
    assert_eq!(act_date(None, 500), 500);
    assert_eq!(item_parent_row(0, Some(3)), None);
    assert_eq!(item_parent_row(2, Some(3)), Some(3));
    let (g, r) = return_act_names(&None, &Some("Склад".to_string()), &"Иванов".to_string(), &"Петров".to_string());
    assert_eq!(g, "Петров");
    assert_eq!(r, "Склад");
    let (g, r) = return_act_names(&None, &None, &"Иванов".to_string(), &"Петров".to_string());
    assert_eq!((g.as_str(), r.as_str()), ("Петров", "Иванов"));
}

#[test]
fn location_name_wins_over_id() {
    match location_source(&Some("Склад 2".to_string()), Some(4)) {
        LocationSource::ByName(n) => assert_eq!(n, "Склад 2"),
        LocationSource::ById(_) => panic!("name expected"),
    }
    match location_source(&None, Some(4)) {
        LocationSource::ById(i) => assert_eq!(i, Some(4)),
        LocationSource::ByName(_) => panic!("id expected"),
    }
}

#[test]
fn complectation_of_added_and_kept_positions() {
    let items = vec![
        ActUpdateItem { device_id: 1, complectation_at_time: None },
        ActUpdateItem { device_id: 2, complectation_at_time: Some("мышь".to_string()) },
        ActUpdateItem { device_id: 2, complectation_at_time: Some("другое".to_string()) },
    ];
    assert_eq!(added_complectation(&items, 2, &Some("кабель".to_string())), Some("мышь".to_string()));
    assert_eq!(added_complectation(&items, 1, &Some("кабель".to_string())), Some("кабель".to_string()));
    assert_eq!(added_complectation(&items, 3, &None), None);
    assert_eq!(complectation_update(&Some("a".to_string()), &Some("a".to_string())), None);
    assert_eq!(complectation_update(&Some("b".to_string()), &Some("a".to_string())), Some("b".to_string()));
    assert_eq!(complectation_update(&Some("b".to_string()), &None), Some("b".to_string()));
    assert_eq!(complectation_update(&None, &Some("a".to_string())), None);
}

#[test]
fn kept_return_rows_change_only_on_a_real_difference() {
    assert!(!retained_needs_change(&None, &Some("ok".to_string()), None, Some(3)));
    assert!(!retained_needs_change(&Some("ok".to_string()), &Some("ok".to_string()), Some(3), Some(3)));
    assert!(retained_needs_change(&Some("broken".to_string()), &Some("ok".to_string()), None, Some(3)));
    assert!(retained_needs_change(&None, &None, Some(4), Some(3)));
    assert!(retained_needs_change(&None, &None, Some(4), None));
}

#[test]
fn a_return_edit_needs_a_position() {
    let mut dto = ActUpdateReturnDto {
        id: 1,
        expected_version: 1,
        giver_name: "A".to_string(),
        receiver_name: "B".to_string(),
        handover_date_utc: 0,
        items: Vec::new(),
        apply_to_all: false,
        bulk_condition: None,
        bulk_location_id: None,
        bulk_location_name: None,
    };
    assert_eq!(
        validate_update_return(&dto),
        Err(AppError::Validation {
            field: "items".to_string(),
            message: "Добавьте хотя бы одну позицию".to_string()
        })
    );
    dto.items.push(ActReturnItem {
        act_item_id: 1,
        device_id: 5,
        quantity: 1,
        device_ids: Vec::new(),
        condition_override: None,
        location_id_override: None,
        location_name_override: None,
    });
    assert_eq!(validate_update_return(&dto), Ok(()));
}

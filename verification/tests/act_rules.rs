use trackly_app::acts::{
    check_act_editable, check_removed_outstanding, check_return_parent, check_return_quantity,
    check_unchanged_since_return, claim_act_number, compute_suffix_from_display, delete_plan, effective_device_ids,
    item_delta, return_targets, undo_order, validate_create, validate_return, validate_update, ActCreateDto,
    ActCreateItem, ActReturnDto, ActReturnItem, ActState, ActType, ActUpdateDto, ActUpdateItem, DeleteStep,
};
use trackly_app::error::AppError;

fn create_dto(items: Vec<ActCreateItem>) -> ActCreateDto {
    ActCreateDto {
        giver_name: "Склад".to_string(),
        receiver_name: "Иванов".to_string(),
        items,
        number_override: None,
        handover_date_utc: None,
        location_id: None,
        location_name: None,
        notes: None,
        deadline_utc: None,
    }
}

fn item(device_id: i64, quantity: i64, device_ids: Vec<i64>) -> ActCreateItem {
    ActCreateItem { device_id, quantity, device_ids }
}

fn validation_of(r: Result<(), AppError>) -> (String, String) {
    match r {
        Err(AppError::Validation { field, message }) => (field, message),
        _ => panic!("expected a validation error"),
    }
}

fn ret_item(device_id: i64, device_ids: Vec<i64>) -> ActReturnItem {
    ActReturnItem {
        act_item_id: device_id * 10,
        device_id,
        quantity: 1,
        device_ids,
        condition_override: Some("исправно".to_string()),
        location_id_override: Some(5),
        location_name_override: None,
    }
}

fn ret_dto(items: Vec<ActReturnItem>) -> ActReturnDto {
    ActReturnDto {
        items,
        apply_to_all: false,
        bulk_condition: None,
        bulk_location_id: None,
        bulk_location_name: None,
        giver_name: None,
        receiver_name: None,
        handover_date_utc: None,
    }
}

#[test]
fn create_accepts_a_valid_act() {
    assert!(validate_create(&create_dto(vec![item(1, 1, vec![]), item(2, 2, vec![3, 4])])).is_ok());
}

#[test]
fn create_requires_names_and_items() {
    let mut d = create_dto(vec![item(1, 1, vec![])]);
    d.giver_name = "   ".to_string();
    assert_eq!(validation_of(validate_create(&d)), ("giver_name".to_string(), "Поле «Сдал» обязательно".to_string()));
    let d = create_dto(vec![]);
    assert_eq!(validation_of(validate_create(&d)).1, "Добавьте хотя бы одну позицию");
    let many: Vec<ActCreateItem> = (0..101).map(|i| item(i, 1, vec![])).collect();
    assert_eq!(validation_of(validate_create(&create_dto(many))).1, "Максимум 100 позиций в одном акте");
}

#[test]
fn create_checks_quantities_in_order() {
    let r = validate_create(&create_dto(vec![item(1, 1, vec![]), item(2, 0, vec![])]));
    assert_eq!(validation_of(r), ("items[1].quantity".to_string(), "Количество должно быть ≥ 1".to_string()));
    let r = validate_create(&create_dto(vec![item(1, 1001, vec![])]));
    assert_eq!(validation_of(r).1, "Кол-во не должно превышать 1000");
    let r = validate_create(&create_dto(vec![item(1, 3, vec![5, 6])]));
    assert_eq!(
        validation_of(r),
        ("items[0].device_ids".to_string(), "device_ids.len()=2 не совпадает с quantity=3".to_string())
    );
}

#[test]
fn create_refuses_a_device_in_two_positions() {
    let r = validate_create(&create_dto(vec![item(7, 2, vec![7, 8]), item(8, 1, vec![])]));
    assert_eq!(
        validation_of(r),
        ("items[1].device_ids".to_string(), "Устройство id=8 включено в акт более одного раза".to_string())
    );
    let mut d = create_dto(vec![item(1, 1, vec![])]);
    d.number_override = Some(0);
    assert_eq!(validation_of(validate_create(&d)).0, "number_override");
}

#[test]
fn update_refuses_duplicate_devices() {
    let d = ActUpdateDto {
        id: 1,
        expected_version: 1,
        giver_name: "А".to_string(),
        receiver_name: "Б".to_string(),
        items: vec![
            ActUpdateItem { device_id: 3, complectation_at_time: None },
            ActUpdateItem { device_id: 3, complectation_at_time: None },
        ],
        number_override: None,
        handover_date_utc: None,
        location_id: None,
        location_name: None,
        notes: None,
        deadline_utc: None,
    };
    assert_eq!(
        validation_of(validate_update(&d)),
        ("items[1].device_id".to_string(), "Устройство id=3 включено в акт более одного раза".to_string())
    );
}

#[test]
fn return_validation_errors() {
    assert_eq!(validation_of(validate_return(&ret_dto(vec![]))).1, "Добавьте хотя бы одну позицию к возврату");
    let r = validate_return(&ret_dto(vec![ret_item(1, vec![]), ret_item(2, vec![1])]));
    assert_eq!(validation_of(r), ("items[1].device_ids".to_string(), "device_id=1 продублирован в возврате".to_string()));
    let mut it = ret_item(1, vec![]);
    it.condition_override = None;
    let r = validate_return(&ret_dto(vec![it]));
    assert_eq!(validation_of(r).0, "items[0].condition_override");
    let mut bulk = ret_dto(vec![ActReturnItem { condition_override: None, location_id_override: None, ..ret_item(1, vec![]) }]);
    bulk.apply_to_all = true;
    assert!(validate_return(&bulk).is_ok());
}

#[test]
fn effective_ids_fall_back_to_single_device() {
    assert_eq!(effective_device_ids(&ret_item(4, vec![])), vec![4]);
    assert_eq!(effective_device_ids(&ret_item(4, vec![9, 10])), vec![9, 10]);
}

#[test]
fn delta_splits_old_and_new_sets() {
    let d = item_delta(&vec![1, 2, 3], &vec![3, 4, 4, 1]);
    assert_eq!(d.added, vec![4]);
    assert_eq!(d.unchanged, vec![1, 3]);
    assert_eq!(d.removed, vec![2]);
    let same = item_delta(&vec![5, 6], &vec![6, 5]);
    assert!(same.added.is_empty() && same.removed.is_empty());
}

fn act(act_type: ActType) -> ActState {
    ActState { id: 10, number: 42, act_type, version: 3, deleted: false, archived: false, parent_act_id: None }
}

#[test]
fn edit_guards() {
    assert!(check_act_editable(&act(ActType::Handover), ActType::Handover, 3).is_ok());
    match check_act_editable(&act(ActType::Handover), ActType::Handover, 2) {
        Err(AppError::OptimisticLockMismatch { expected, actual, .. }) => assert_eq!((expected, actual), (2, 3)),
        _ => panic!("expected a lock mismatch"),
    }
    assert_eq!(
        validation_of(check_act_editable(&act(ActType::Return), ActType::Handover, 3)).1,
        "Редактировать можно только акты выдачи (handover)"
    );
    let mut gone = act(ActType::Handover);
    gone.deleted = true;
    assert!(matches!(check_act_editable(&gone, ActType::Handover, 3), Err(AppError::NotFound { .. })));
    let mut archived = act(ActType::Handover);
    archived.archived = true;
    match check_return_parent(&archived) {
        Err(AppError::Conflict { reason }) => assert_eq!(reason, "Акт №42 уже архивирован — все устройства вернулись"),
        _ => panic!("expected a conflict"),
    }
}

#[test]
fn number_claims_and_removed_positions() {
    assert_eq!(claim_act_number(7, false).unwrap(), 7);
    match claim_act_number(7, true) {
        Err(AppError::Conflict { reason }) => assert_eq!(reason, "Акт №7 уже существует"),
        _ => panic!("expected a conflict"),
    }
    assert!(check_removed_outstanding(&vec![1, 2], &vec![2, 1, 5]).is_ok());
    match check_removed_outstanding(&vec![1, 2], &vec![1]) {
        Err(AppError::Conflict { reason }) => assert_eq!(
            reason,
            "Устройство id=2 уже возвращено по акту возврата — редактирование позиции невозможно"
        ),
        _ => panic!("expected a conflict"),
    }
}

#[test]
fn return_quantity_rules() {
    assert!(check_return_quantity(5, 1, 0, 1, false).is_ok());
    let e = validation_of(check_return_quantity(5, 2, 1, 2, false));
    assert_eq!(e.1, "Возврат превышает выданное количество для устройства id=5: уже возвращено 1 + текущее 2 > выдано 2");
    let e = validation_of(check_return_quantity(5, 1, 0, 3, true));
    assert!(e.1.contains("нужно вернуть ровно 3, а не 1 (уже возвращено 0)"));
    assert!(check_return_quantity(5, 3, 0, 3, true).is_ok());
}

#[test]
fn return_targets_last_position_wins() {
    let a = ActReturnItem { condition_override: Some("a".to_string()), ..ret_item(1, vec![1, 2]) };
    let b = ActReturnItem { condition_override: Some("b".to_string()), ..ret_item(2, vec![2, 3]) };
    let t = return_targets(&vec![a, b], false, &None, None, &vec![Some(7), None]);
    let view: Vec<(i64, Option<String>, Option<i64>)> =
        t.iter().map(|x| (x.device_id, x.condition.clone(), x.location)).collect();
    assert_eq!(
        view,
        vec![(1, Some("a".to_string()), Some(7)), (2, Some("b".to_string()), None), (3, Some("b".to_string()), None)]
    );
}

#[test]
fn edit_safety_compares_snapshot() {
    let json = r#"{"status_id":1,"location_id":4,"state":"ok","kit":null}"#;
    assert!(check_unchanged_since_return(9, json, 1, Some(4), &Some("ok".to_string())).is_ok());
    match check_unchanged_since_return(9, json, 2, Some(4), &Some("ok".to_string())) {
        Err(AppError::Conflict { reason }) => assert!(reason.starts_with("Устройство id=9 изменилось после этого возврата")),
        _ => panic!("expected a conflict"),
    }
    assert!(matches!(check_unchanged_since_return(9, "not json", 1, None, &None), Err(AppError::Internal { .. })));
}

#[test]
fn deletion_undoes_returns_last_first() {
    let steps = delete_plan(&act(ActType::Handover), &vec![(20, 1), (21, 1)]);
    assert_eq!(
        steps,
        vec![
            DeleteStep::Undo { act_id: 21 },
            DeleteStep::SoftDelete { act_id: 21, version: 1 },
            DeleteStep::Audit { act_id: 21, cascade_from: Some(10) },
            DeleteStep::Undo { act_id: 20 },
            DeleteStep::SoftDelete { act_id: 20, version: 1 },
            DeleteStep::Audit { act_id: 20, cascade_from: Some(10) },
            DeleteStep::Undo { act_id: 10 },
            DeleteStep::SoftDelete { act_id: 10, version: 3 },
            DeleteStep::Audit { act_id: 10, cascade_from: None },
        ]
    );
    let mut ret = act(ActType::Return);
    ret.parent_act_id = Some(4);
    assert_eq!(
        delete_plan(&ret, &vec![]),
        vec![
            DeleteStep::Undo { act_id: 10 },
            DeleteStep::SoftDelete { act_id: 10, version: 3 },
            DeleteStep::RecomputeParent { parent_id: 4 },
            DeleteStep::Audit { act_id: 10, cascade_from: None },
        ]
    );
    let rows = vec![(1, "a".to_string()), (2, "b".to_string())];
    assert_eq!(undo_order(rows), vec![(2, "b".to_string()), (1, "a".to_string())]);
}

#[test]
fn suffix_of_displayed_numbers() {
    assert_eq!(compute_suffix_from_display("42", 42), "");
    assert_eq!(compute_suffix_from_display("42в1", 42), "в1");
    assert_eq!(compute_suffix_from_display("42в", 999), "в");
    assert_eq!(compute_suffix_from_display("17", 999), "");
}

use trackly_app::acts::{
    edit_plan, item_delta, return_edit_plan, return_plan, ActReturnItem, ActUpdateItem, ActWrite, ReturnTarget,
};

fn s(x: &str) -> Option<String> {
    Some(x.to_string())
}

fn upd(device_id: i64, kit: Option<String>) -> ActUpdateItem {
    ActUpdateItem { device_id, complectation_at_time: kit }
}

#[test]
fn delta_keeps_the_order_of_new_and_old() {
    let d = item_delta(&vec![3, 1, 2], &vec![5, 2, 4, 1, 5]);
    assert_eq!(d.added, vec![5, 4]);
    assert_eq!(d.unchanged, vec![1, 2]);
    assert_eq!(d.removed, vec![3]);
}

#[test]
fn edit_plan_hands_out_rewrites_restores_and_recomputes() {
    let items = vec![upd(11, s("заявлено")), upd(12, None), upd(20, s("x")), upd(21, s("new"))];
    let w = edit_plan(
        7,
        &vec![11, 12],
        &vec![(s("б/у"), s("kit A")), (None, None)],
        &vec![20, 21],
        &vec![s("x"), None],
        &vec![30],
        &items,
        Some(4),
    );
    assert_eq!(
        w,
        vec![
            ActWrite::HandOut { device_id: 11, location: Some(4), condition: s("б/у"), complectation: s("заявлено") },
            ActWrite::HandOut { device_id: 12, location: Some(4), condition: None, complectation: None },
            ActWrite::SetComplectation { device_id: 21, complectation: "new".to_string() },
            ActWrite::Restore { device_id: 30 },
            ActWrite::RecomputeArchived { act_id: 7 },
        ]
    );
}

#[test]
fn edit_plan_uses_the_device_kit_when_nothing_is_submitted() {
    let w = edit_plan(7, &vec![11], &vec![(None, s("kit A"))], &vec![], &vec![], &vec![], &vec![], None);
    assert_eq!(
        w,
        vec![
            ActWrite::HandOut { device_id: 11, location: None, condition: None, complectation: s("kit A") },
            ActWrite::RecomputeArchived { act_id: 7 },
        ]
    );
}

#[test]
fn edit_plan_without_added_or_removed_does_not_recompute() {
    let w = edit_plan(7, &vec![], &vec![], &vec![20], &vec![s("old")], &vec![], &vec![upd(20, s("new"))], None);
    assert_eq!(w, vec![ActWrite::SetComplectation { device_id: 20, complectation: "new".to_string() }]);
    let none = edit_plan(7, &vec![], &vec![], &vec![20], &vec![s("same")], &vec![], &vec![upd(20, s("same"))], None);
    assert!(none.is_empty());
}

fn target(device_id: i64, quantity: i64, condition: Option<String>, location: Option<i64>) -> ReturnTarget {
    ReturnTarget { device_id, quantity, condition, location }
}

#[test]
fn return_edit_plan_restores_returns_and_rewrites() {
    let targets = vec![target(2, 2, s("bad"), Some(6)), target(3, 1, s("ok"), Some(5)), target(4, 1, None, Some(8))];
    let w = return_edit_plan(
        9,
        &vec![1],
        &vec![2],
        &vec![3, 4],
        &vec![(s("ok"), Some(5)), (s("ok"), Some(5))],
        &targets,
    );
    assert_eq!(
        w,
        vec![
            ActWrite::Restore { device_id: 1 },
            ActWrite::Return { device_id: 2, quantity: 2, condition: s("bad"), location: Some(6) },
            ActWrite::Rewrite { device_id: 4, condition: None, location: Some(8) },
            ActWrite::RecomputeArchived { act_id: 9 },
        ]
    );
}

#[test]
fn return_edit_plan_of_unchanged_devices_writes_nothing() {
    let targets = vec![target(3, 1, None, None)];
    let w = return_edit_plan(9, &vec![], &vec![], &vec![3], &vec![(s("ok"), Some(5))], &targets);
    assert!(w.is_empty());
}

fn ret(device_id: i64, quantity: i64, device_ids: Vec<i64>, condition: Option<String>) -> ActReturnItem {
    ActReturnItem {
        act_item_id: 1,
        device_id,
        quantity,
        device_ids,
        condition_override: condition,
        location_id_override: None,
        location_name_override: None,
    }
}

#[test]
fn return_plan_returns_every_device_then_recomputes() {
    let items = vec![ret(4, 3, vec![], None), ret(0, 5, vec![7, 8], s("ok"))];
    let w = return_plan(9, &items, true, &s("bulk"), Some(2), &vec![None, Some(6)]);
    assert_eq!(
        w,
        vec![
            ActWrite::Return { device_id: 4, quantity: 3, condition: s("bulk"), location: Some(2) },
            ActWrite::Return { device_id: 7, quantity: 1, condition: s("ok"), location: Some(6) },
            ActWrite::Return { device_id: 8, quantity: 1, condition: s("ok"), location: Some(6) },
            ActWrite::RecomputeArchived { act_id: 9 },
        ]
    );
    let own = return_plan(9, &items, false, &s("bulk"), Some(2), &vec![None, Some(6)]);
    assert_eq!(own[0], ActWrite::Return { device_id: 4, quantity: 3, condition: None, location: None });
}

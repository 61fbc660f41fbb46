use trackly_app::auth::{
    ad_bind_action, ad_bind_display_name, ad_password_precheck, check_user_version, create_user_plan,
    desktop_admin, guard_last_admin_delete, guard_last_admin_update, hash_password, local_login_outcome, login_next,
    restore_request_state, restore_target, role_from_str, setting_flag, validate_user_new, verify_password,
    AdAuthOutcome, AdBindAction, CreateUserPlan, LocalLoginOutcome, LoginNext, Role, UserAnyState, UserNew,
};
use trackly_app::error::AppError;

fn user(is_active: bool, deleted: bool, has_open_register_request: bool) -> UserAnyState {
    UserAnyState { id: 5, role: "employee".to_string(), is_active, deleted, has_open_register_request }
}

#[test]
fn password_hash_round_trip() {
    let h = hash_password("correct horse").unwrap();
    assert!(h.starts_with("$argon2id$v=19$m=19456,t=2,p=1$"));
    assert!(h.starts_with("$argon2id$"));
    assert!(verify_password("correct horse", &h));
    assert!(!verify_password("wrong horse", &h));
    assert!(!verify_password("correct horse", "not a phc string"));
    assert!(!verify_password("correct horse", ""));
    // A lane count that would overflow argon2's parameter check is refused.
    assert!(!verify_password("x", "$argon2id$v=19$m=8,t=1,p=536870912$c29tZWZpeGVkc2FsdDEy$AAAAAAAAAAAAAAAAAAAAAA"));
    assert!(!verify_password("x", "$argon2id$v=19$m=8,t=1,p=1234567890$c29tZWZpeGVkc2FsdDEy$AAAAAAAAAAAAAAAAAAAAAA"));
}

#[test]
fn new_user_validation() {
    let mk = |login: &str, password: &str, role: &str| UserNew {
        login: login.to_string(),
        full_name: "Имя".to_string(),
        password: password.to_string(),
        role: role.to_string(),
        email: None,
    };
    assert!(validate_user_new(&mk("bob", "12345678", "admin")).is_ok());
    match validate_user_new(&mk("bo", "12345678", "admin")) {
        Err(AppError::Validation { field, .. }) => assert_eq!(field, "login"),
        _ => panic!("expected a validation error"),
    }
    match validate_user_new(&mk("bob", "1234567", "admin")) {
        Err(AppError::Validation { message, .. }) => assert_eq!(message, "Пароль должен быть не менее 8 символов"),
        _ => panic!("expected a validation error"),
    }
    assert!(matches!(validate_user_new(&mk("bob", "12345678", "root")), Err(AppError::Validation { .. })));
    assert_eq!(role_from_str("manager").unwrap(), Role::Manager);
    // Lengths count characters: «Юля» has three.
    assert!(validate_user_new(&mk("Юля", "12345678", "employee")).is_ok());
    assert!(matches!(validate_user_new(&mk("Юл", "12345678", "employee")), Err(AppError::Validation { .. })));
}

#[test]
fn login_falls_back_to_ad_only_for_unknown_logins() {
    assert_eq!(local_login_outcome(false, true), LocalLoginOutcome::UnknownLogin);
    assert_eq!(local_login_outcome(true, false), LocalLoginOutcome::BadPassword);
    assert_eq!(login_next(LocalLoginOutcome::Success, false).unwrap(), LoginNext::LocalSession);
    assert_eq!(login_next(LocalLoginOutcome::UnknownLogin, true).unwrap(), LoginNext::TryAd);
    assert!(matches!(login_next(LocalLoginOutcome::UnknownLogin, false), Err(AppError::Unauthorized)));
    assert!(matches!(login_next(LocalLoginOutcome::BadPassword, true), Err(AppError::Unauthorized)));
    assert!(matches!(ad_password_precheck(" \t"), Err(AppError::Unauthorized)));
    assert!(ad_password_precheck("p").is_ok());
}

#[test]
fn ad_bind_branches() {
    assert_eq!(ad_bind_action(Some(&user(true, false, false)), false), AdBindAction::Session);
    assert_eq!(ad_bind_action(Some(&user(false, false, true)), false), AdBindAction::ReusePendingRegistration { user_id: 5 });
    assert_eq!(ad_bind_action(Some(&user(false, false, false)), true), AdBindAction::ReportBlocked { user_id: 5 });
    assert_eq!(ad_bind_action(Some(&user(true, true, false)), true), AdBindAction::ReportBlocked { user_id: 5 });
    assert_eq!(ad_bind_action(None, true), AdBindAction::AutoRegister);
    assert_eq!(ad_bind_action(None, false), AdBindAction::CreatePendingRegistration);
    assert_eq!(restore_target(Some(&user(false, false, false))).unwrap(), 5);
    assert!(matches!(restore_target(Some(&user(false, false, true))), Err(AppError::Unauthorized)));
    assert!(matches!(restore_target(None), Err(AppError::Unauthorized)));
    match ad_bind_display_name(AdAuthOutcome::Unreachable) {
        Err(AppError::ServiceUnavailable { service }) => assert_eq!(service, "ad"),
        _ => panic!("expected AD unavailable"),
    }
    assert_eq!(ad_bind_display_name(AdAuthOutcome::Accepted { display_name: "Ив".to_string() }).unwrap(), "Ив");
}

#[test]
fn restore_state_and_flags() {
    let s = restore_request_state(false, Some(("rejected".to_string(), Some("нет".to_string()))));
    assert!(!s.pending);
    assert_eq!(s.rejection_reason, Some("нет".to_string()));
    let s = restore_request_state(false, Some(("approved".to_string(), Some("ok".to_string()))));
    assert_eq!(s.rejection_reason, None);
    assert!(restore_request_state(true, None).pending);
    assert!(setting_flag(Some("1")));
    assert!(!setting_flag(Some("true")));
    assert!(!setting_flag(None));
}

#[test]
fn last_admin_guards_and_version() {
    assert!(guard_last_admin_update(Some("manager"), None, 1, true).is_err());
    assert!(guard_last_admin_update(None, Some(false), 1, true).is_err());
    assert!(guard_last_admin_update(Some("admin"), Some(true), 1, true).is_ok());
    assert!(guard_last_admin_update(Some("employee"), None, 2, true).is_ok());
    assert!(guard_last_admin_delete(1, true).is_err());
    assert!(guard_last_admin_delete(1, false).is_ok());
    match check_user_version(3, 4) {
        Err(AppError::Conflict { reason }) => assert_eq!(reason, "optimistic lock: version 3 != current 4"),
        _ => panic!("expected a conflict"),
    }
    assert_eq!(create_user_plan("bob", Some((9, true))).unwrap(), CreateUserPlan::Revive { id: 9 });
    match create_user_plan("bob", Some((9, false))) {
        Err(AppError::Conflict { reason }) => assert_eq!(reason, "Логин 'bob' уже занят"),
        _ => panic!("expected a conflict"),
    }
    assert_eq!(desktop_admin(&vec![4]), Some(4));
    assert_eq!(desktop_admin(&vec![4, 6]), None);
    assert_eq!(desktop_admin(&vec![]), None);
}

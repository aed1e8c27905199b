use ryframe_service::error::AppError;
use ryframe_service::menu::{menu_tree_cache_key, normalize_route_key};

#[test]
fn cache_key_is_tenant_scoped() {
    let first = menu_tree_cache_key("tenant-a");
    let second = menu_tree_cache_key("tenant-b");
    assert_eq!(first, "tenant:tenant-a:sys_menu:tree");
    assert_eq!(second, "tenant:tenant-b:sys_menu:tree");
    assert_ne!(first, second);
}

#[test]
fn route_keys_are_trimmed_and_blank_ones_dropped() {
    assert_eq!(normalize_route_key(Some("  system.user ".into())), Some("system.user".to_string()));
    assert_eq!(normalize_route_key(Some("   ".into())), None);
    assert_eq!(normalize_route_key(None), None);
    let _ = AppError::Validation(String::new());
}

use ryframe_service::menu::{
    check_binding_rule, check_parent_not_self, check_permission_found, check_route_key_owner,
    step_ancestor, MenuAncestor, MenuType,
};

#[test]
fn menu_type_codes() {
    assert_eq!(MenuType::Directory.as_str(), "M");
    assert_eq!(MenuType::Page.as_str(), "C");
    assert_eq!(MenuType::Action.as_str(), "F");
}

#[test]
fn binding_rules_per_menu_type() {
    assert!(check_binding_rule(MenuType::Directory, None, None).is_ok());
    assert!(check_binding_rule(MenuType::Page, Some(1), Some("system.user")).is_ok());
    assert!(matches!(check_binding_rule(MenuType::Page, None, Some("x")), Err(AppError::Validation(_))));
    assert!(matches!(check_binding_rule(MenuType::Page, Some(1), None), Err(AppError::Validation(_))));
    assert!(check_binding_rule(MenuType::Action, Some(1), None).is_ok());
    assert!(matches!(check_binding_rule(MenuType::Action, Some(1), Some("x")), Err(AppError::Validation(_))));
    assert!(matches!(check_binding_rule(MenuType::Action, None, None), Err(AppError::Validation(_))));
}

#[test]
fn permission_route_and_parent_checks() {
    assert!(check_permission_found(None, false).is_ok());
    assert!(check_permission_found(Some(3), true).is_ok());
    assert!(matches!(check_permission_found(Some(3), false), Err(AppError::Validation(_))));
    assert!(check_route_key_owner(Some(1), None).is_ok());
    assert!(check_route_key_owner(Some(1), Some(1)).is_ok());
    assert!(matches!(check_route_key_owner(Some(1), Some(2)), Err(AppError::Conflict(_))));
    assert!(matches!(check_route_key_owner(None, Some(2)), Err(AppError::Conflict(_))));
    assert!(check_parent_not_self(Some(1), Some(2)).is_ok());
    assert!(matches!(check_parent_not_self(Some(1), Some(1)), Err(AppError::Validation(_))));
}

#[test]
fn ancestor_walk_steps() {
    let dir = MenuAncestor { id: 5, menu_type: MenuType::Directory, parent_id: Some(2) };
    assert_eq!(step_ancestor(Some(9), Some(dir)), Ok(Some(2)));
    assert!(matches!(step_ancestor(Some(5), Some(dir)), Err(AppError::Validation(_))));
    let action = MenuAncestor { id: 6, menu_type: MenuType::Action, parent_id: None };
    assert!(matches!(step_ancestor(Some(9), Some(action)), Err(AppError::Validation(_))));
    assert!(matches!(step_ancestor(Some(9), None), Err(AppError::Validation(_))));
}

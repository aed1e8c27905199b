use ryframe_service::permission::{plan_route_permission_sync, route_permission_name, PermissionType};

#[test]
fn permission_type_names() {
    assert_eq!(PermissionType::Api.as_str(), "api");
    assert_eq!(PermissionType::Menu.as_str(), "menu");
}

#[test]
fn route_permission_names_use_the_last_segment() {
    assert_eq!(route_permission_name("system:user:list"), "list");
    assert_eq!(route_permission_name("plain"), "plain");
    assert_eq!(route_permission_name("trailing:"), "");
}

#[test]
fn sync_registers_only_missing_codes_once_in_order() {
    let routes = vec![
        "system:user:list".to_string(),
        "system:role:add".to_string(),
        "system:user:list".to_string(),
        "system:dept:edit".to_string(),
    ];
    let existing = vec!["system:role:add".to_string(), "other:x".to_string(), "other:x".to_string()];
    let (report, created) = plan_route_permission_sync(routes, existing);
    assert_eq!(report.scanned, 3);
    assert_eq!(report.existing, 2);
    assert_eq!(report.created, 2);
    assert_eq!(report.missing, vec!["system:dept:edit".to_string(), "system:user:list".to_string()]);
    assert_eq!(created[0].name, "edit");
    assert_eq!(created[1].code, "system:user:list");
    assert_eq!(created[1].perm_type, "api");
    assert_eq!(created[1].status, "1");
    assert_eq!(created[1].sort, 0);
}

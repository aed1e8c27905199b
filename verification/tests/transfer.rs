use ryframe_service::crypto::request_fingerprint;
use ryframe_service::error::AppError;
use ryframe_service::transfer::catalog::{validate_catalog_values, validate_route_catalog, TenantConfigTargetCatalog};
use ryframe_service::transfer::closure::ParentLink;
use ryframe_service::transfer::keys::{
    preview_plan_hash,
    action_menu_key, is_platform_only_permission, join_path, normalize_resource_stable_key,
    normalize_stable_key, permission_contains_wildcard, route_menu_key, transfer_request_fingerprint,
    validate_sha256, validate_transfer_item_text,
};
use ryframe_service::transfer::paths::{build_department_paths, build_menu_stable_keys, DeptRecord, MenuRecord, PermissionCodeRecord};
use ryframe_service::transfer::select::{portable_menu_ids, portable_permission_ids, PermissionRecord};
use ryframe_service::idset::IdSet;
use sha2::Digest;

#[test]
fn stable_keys() {
    assert_eq!(normalize_stable_key("System:User"), "system:user");
    assert_eq!(normalize_resource_stable_key("department", "A/B"), "A/B");
    assert_eq!(normalize_resource_stable_key("post", "CEO"), "ceo");
    assert_eq!(join_path(&["总部".to_string(), "IT".to_string()]), "6:总部/2:IT");
    assert_eq!(join_path(&[]), "");
    assert_eq!(route_menu_key("system.user"), "route:11:system.user");
    assert_eq!(action_menu_key("route:1:a", "x:y"), "action:9:route:1:a:3:x:y");
}

#[test]
fn protected_permissions() {
    assert!(is_platform_only_permission("Platform:tenant:list"));
    assert!(is_platform_only_permission("tenant:*"));
    assert!(is_platform_only_permission("monitor:retention:run"));
    assert!(!is_platform_only_permission("monitor:job:list"));
    assert!(permission_contains_wildcard("*"));
    assert!(permission_contains_wildcard("system:*:list"));
    assert!(!permission_contains_wildcard("system:user*:list"));
}

#[test]
fn hashes_texts_and_fingerprints() {
    assert!(validate_sha256(&"a".repeat(64)).is_ok());
    assert!(validate_sha256(&"A".repeat(64)).is_ok());
    assert!(matches!(validate_sha256(&"g".repeat(64)), Err(AppError::Validation(_))));
    assert!(validate_sha256("abc").is_err());
    assert!(validate_transfer_item_text("键", 1, "配置稳定键").is_ok());
    assert_eq!(
        validate_transfer_item_text("键值", 1, "配置稳定键"),
        Err(AppError::Validation("配置稳定键超过数据库字段上限（1 个字符）".into()))
    );
    let expected = hex::encode(sha2::Sha256::digest(b"upload:7"));
    assert_eq!(transfer_request_fingerprint("upload", 7), expected);
}

#[test]
fn catalogs_are_validated() {
    let ok = validate_catalog_values(vec!["system:user:list".into(), "system:role:list".into()], "API 权限").unwrap();
    assert_eq!(ok.len(), 2);
    assert!(matches!(validate_catalog_values(vec![], "API 权限"), Err(AppError::Config(_))));
    assert!(matches!(validate_catalog_values(vec![" a".into()], "API 权限"), Err(AppError::Config(_))));
    assert!(matches!(validate_catalog_values(vec!["A:b".into(), "a:B".into()], "API 权限"), Err(AppError::Config(_))));
    let routes = validate_route_catalog(vec![("system.user".into(), "C".into()), ("system".into(), "M".into())]).unwrap();
    assert_eq!(routes.len(), 2);
    assert!(matches!(validate_route_catalog(vec![("x".into(), "F".into())]), Err(AppError::Config(_))));
    assert!(matches!(validate_route_catalog(vec![]), Err(AppError::Config(_))));
    assert!(TenantConfigTargetCatalog::new(vec![("system.user".into(), "C".into())], vec!["system:user:list".into()]).is_ok());
    assert!(matches!(
        TenantConfigTargetCatalog::new(vec![("system.user".into(), "C".into())], vec!["nocolon".into()]),
        Err(AppError::Config(_))
    ));
}

#[test]
fn department_paths_and_menu_keys() {
    let depts = vec![
        DeptRecord { id: 2, parent_id: Some(1), name: "IT".into() },
        DeptRecord { id: 1, parent_id: None, name: "总部".into() },
    ];
    let paths = build_department_paths(&depts).unwrap();
    assert_eq!(paths[0].0, 1);
    assert_eq!(paths[1].1, vec!["总部".to_string(), "IT".to_string()]);
    let dangling = vec![DeptRecord { id: 2, parent_id: Some(9), name: "IT".into() }];
    assert!(matches!(build_department_paths(&dangling), Err(AppError::Validation(_))));

    let menus = vec![
        MenuRecord { id: 10, parent_id: None, menu_type: "C".into(), perm_id: Some(1), route_key: Some("system.user".into()) },
        MenuRecord { id: 11, parent_id: Some(10), menu_type: "F".into(), perm_id: Some(2), route_key: None },
    ];
    let perms = vec![
        PermissionCodeRecord { id: 1, code: "system:user:list".into() },
        PermissionCodeRecord { id: 2, code: "system:user:add".into() },
    ];
    let keys = build_menu_stable_keys(&menus, &perms).unwrap();
    assert_eq!(keys[0].1, "route:11:system.user");
    assert_eq!(keys[1].1, "action:20:route:11:system.user:15:system:user:add");
}

#[test]
fn portable_selection_prunes_dangling_children() {
    let perms = vec![
        PermissionRecord { id: 1, parent_id: None, code: "system:user".into() },
        PermissionRecord { id: 2, parent_id: Some(1), code: "system:user:list".into() },
        PermissionRecord { id: 3, parent_id: None, code: "platform:tenant".into() },
        PermissionRecord { id: 4, parent_id: Some(3), code: "system:x".into() },
        PermissionRecord { id: 5, parent_id: Some(4), code: "system:y".into() },
    ];
    let ids = portable_permission_ids(&perms);
    assert_eq!(ids.to_vec(), vec![1, 2]);
    let menus = vec![
        MenuRecord { id: 10, parent_id: None, menu_type: "M".into(), perm_id: None, route_key: None },
        MenuRecord { id: 11, parent_id: Some(10), menu_type: "C".into(), perm_id: Some(2), route_key: None },
        MenuRecord { id: 12, parent_id: Some(11), menu_type: "F".into(), perm_id: Some(4), route_key: None },
        MenuRecord { id: 13, parent_id: Some(10), menu_type: "C".into(), perm_id: None, route_key: None },
    ];
    assert_eq!(portable_menu_ids(&menus, &ids).to_vec(), vec![10, 11]);
    let mut empty = IdSet::new();
    empty.insert(7);
    assert!(empty.contains(7));
    let _ = ParentLink { id: 1, parent_id: None };
}

#[test]
fn preview_plan_hash_covers_package_target_version_and_epoch() {
    let h = preview_plan_hash("aa", "bb", 3, -2).unwrap();
    assert_eq!(h, "b8a410dde8d631e0729084ec367d3c4aa0f91796c88766015a4e12c951cdcd50");
    assert_ne!(preview_plan_hash("aa", "bb", 4, -2).unwrap(), h);
    assert_ne!(preview_plan_hash("aa", "bc", 3, -2).unwrap(), h);
    assert_ne!(preview_plan_hash("ab", "bb", 3, -2).unwrap(), h);
    assert_ne!(preview_plan_hash("aa", "bb", 3, 2).unwrap(), h);
}

#[test]
fn department_path_keys_never_collide() {
    let a = join_path(&["a/b".to_string()]);
    let b = join_path(&["a".to_string(), "b".to_string()]);
    assert_ne!(a, b);
    let c = join_path(&["1:x".to_string()]);
    let d = join_path(&["x".to_string()]);
    assert_ne!(c, d);
    assert_ne!(join_path(&["".to_string()]), join_path(&[]));
}

#[test]
fn request_fingerprint_frames_each_part() {
    let ab_c = request_fingerprint(&[b"ab".to_vec(), b"c".to_vec()]);
    let a_bc = request_fingerprint(&[b"a".to_vec(), b"bc".to_vec()]);
    assert_eq!(ab_c.len(), 32);
    assert_ne!(ab_c, a_bc);
    assert_ne!(request_fingerprint(&[Vec::new()]), request_fingerprint(&[]));
    assert_eq!(ab_c, request_fingerprint(&[b"ab".to_vec(), b"c".to_vec()]));
    let fp = transfer_request_fingerprint("upload", 7);
    assert_eq!(fp.len(), 64);
    assert!(fp.bytes().all(|b| b.is_ascii_digit() || (b'a'..=b'f').contains(&b)));
}

#[test]
fn plan_hash_escapes_text_as_json() {
    let h = preview_plan_hash("a\"b\\c\n\u{1}é", "bb", 3, -2).unwrap();
    assert_eq!(h, "87c69f62305b2981aa1964a1164134aca155786b5e68ac9f69c906422f90d270");
}

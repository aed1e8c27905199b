use ryframe_service::error::AppError;
use ryframe_service::transfer::catalog::TenantConfigTargetCatalog;
use ryframe_service::transfer::lifecycle::{
    begin_operation, check_enqueued, ensure_bundle_available, ensure_preview_identity, ensure_requester,
    ensure_transfer_request_identity, mark_running, new_transfer_state, operation_job_id,
    superseded_job_candidates, validate_operation_request, ApplyTenantConfigTransferCommand, EnqueueStep,
    TransferJobKind, TransferOperationRequest, TransferStatus,
};
use ryframe_service::transfer::plan::{
    build_plan_items, compare_menus, compare_permissions, compare_resources, compare_simple, created_keys, mark_plan_outcome, normalize_department_path,
    transfer_item_vo, PlanAction, TransferItem,
};
use ryframe_service::transfer::portable::{
    filter_exportable_resources, ExportableResources, PortableConfig, PortableDepartment, PortableDictData,
    PortableDictType, PortableMenu, PortablePermission, PortablePost, PortableRole,
    TenantConfigPackageResources,
};

fn catalog() -> TenantConfigTargetCatalog {
    TenantConfigTargetCatalog::new(
        vec![("system.user".into(), "C".into()), ("system".into(), "M".into())],
        vec!["system:user:list".into(), "system:user:add".into()],
    )
    .unwrap()
}

fn perm(code: &str, parent: Option<&str>, kind: &str) -> PortablePermission {
    PortablePermission {
        code: code.into(),
        name: code.into(),
        parent_code: parent.map(str::to_string),
        permission_type: kind.into(),
        icon: None,
        sort: 0,
        status: "0".into(),
    }
}

fn menu(key: &str, parent: Option<&str>, kind: &str, code: Option<&str>, route: Option<&str>) -> PortableMenu {
    PortableMenu {
        stable_key: key.into(),
        parent_stable_key: parent.map(str::to_string),
        name: key.into(),
        menu_type: kind.into(),
        permission_code: code.map(str::to_string),
        route_key: route.map(str::to_string),
        icon: None,
        sort: 0,
        visible: true,
        status: "0".into(),
        remark: None,
    }
}

fn role(code: &str, perms: &[&str]) -> PortableRole {
    PortableRole {
        code: code.into(),
        name: code.into(),
        data_scope: "1".into(),
        status: "0".into(),
        sort: 0,
        remark: None,
        permission_codes: perms.iter().map(|c| c.to_string()).collect(),
        custom_department_paths: vec![],
    }
}

#[test]
fn export_filter_keeps_only_what_the_build_supports() {
    let resources = ExportableResources {
        permissions: vec![
            perm("system:user", None, "menu"),
            perm("system:user:list", Some("system:user"), "api"),
            perm("System:User:Add", Some("system:user"), "api"),
            perm("system:gone", None, "api"),
            perm("system:gone:child", Some("system:gone"), "menu"),
            perm("system:user:add", None, "menu"),
        ],
        menus: vec![
            menu("m-system", None, "M", None, Some("system")),
            menu("m-user", Some("m-system"), "C", Some("system:user"), Some("system.user")),
            menu("m-user-list", Some("m-user"), "F", Some("system:user:list"), None),
            menu("m-under-action", Some("m-user-list"), "F", Some("system:user:list"), None),
            menu("m-bad-route", Some("m-system"), "C", None, Some("System.User")),
        ],
        roles: vec![role("admin", &["system:user:list", "system:gone", "System:User:Add"])],
    };
    let out = filter_exportable_resources(resources, &catalog()).unwrap();
    let codes: Vec<_> = out.permissions.iter().map(|p| p.code.clone()).collect();
    assert_eq!(codes, vec!["system:user", "system:user:list"]);
    let keys: Vec<_> = out.menus.iter().map(|m| m.stable_key.clone()).collect();
    assert_eq!(keys, vec!["m-system", "m-user", "m-user-list"]);
    assert_eq!(out.roles[0].permission_codes, vec!["system:user:list".to_string()]);
    let again = filter_exportable_resources(
        ExportableResources { permissions: out.permissions, menus: out.menus, roles: out.roles },
        &catalog(),
    )
    .unwrap();
    let codes2: Vec<_> = again.permissions.iter().map(|p| p.code.clone()).collect();
    assert_eq!(codes2, codes);
    let keys2: Vec<_> = again.menus.iter().map(|m| m.stable_key.clone()).collect();
    assert_eq!(keys2, keys);
    assert_eq!(again.roles[0].permission_codes, vec!["system:user:list".to_string()]);
}

fn empty_resources() -> TenantConfigPackageResources {
    TenantConfigPackageResources {
        departments: vec![],
        posts: vec![],
        dict_types: vec![],
        dict_data: vec![],
        configs: vec![],
        permissions: vec![],
        menus: vec![],
        roles: vec![],
    }
}

#[test]
fn preview_plan_classifies_each_resource() {
    let mut source = empty_resources();
    source.departments.push(PortableDepartment { path: vec!["总部".into()], sort: 0, status: "0".into(), remark: None });
    source.posts.push(PortablePost { code: "CEO".into(), name: "CEO".into(), sort: 1, status: "0".into(), remark: None });
    source.dict_types.push(PortableDictType { code: "sex".into(), name: "性别".into(), status: "0".into(), remark: None });
    source.dict_data.push(PortableDictData {
        type_code: "sex".into(),
        value: "0".into(),
        label: "男".into(),
        sort: 0,
        status: "0".into(),
        css_class: None,
        remark: None,
    });
    source.configs.push(PortableConfig { key: "k".into(), name: "n".into(), value: "v".into(), remark: None });
    source.permissions.push(perm("tenant:list", None, "menu"));
    source.permissions.push(perm("system:user:list", None, "api"));
    source.permissions.push(perm("system:other", None, "api"));
    source.permissions.push(perm("System:User:Add", None, "api"));
    source.menus.push(menu("m1", None, "C", Some("system:user:list"), Some("system.user")));
    source.menus.push(menu("m2", None, "C", None, Some("missing")));
    source.menus.push(menu("m3", None, "M", None, Some("system.user")));
    source.roles.push(role("admin", &[]));

    let mut target = empty_resources();
    target.posts.push(PortablePost { code: "ceo".into(), name: "CEO".into(), sort: 1, status: "0".into(), remark: None });
    target.configs.push(PortableConfig { key: "k".into(), name: "n".into(), value: "old".into(), remark: None });
    target.permissions.push(perm("system:user:list", None, "api"));

    let lines = compare_resources(&source, &target, &catalog());
    let actions: Vec<_> = lines.iter().map(|d| (d.resource_type.clone(), d.stable_key.clone(), d.action)).collect();
    assert_eq!(actions[0], ("department".to_string(), "6:总部".to_string(), PlanAction::Create));
    assert_eq!(actions[1], ("post".to_string(), "CEO".to_string(), PlanAction::Update));
    assert_eq!(actions[2].2, PlanAction::Create);
    assert_eq!(actions[3], ("dict_data".to_string(), "3:sex:0".to_string(), PlanAction::Create));
    assert_eq!(actions[4].2, PlanAction::Update);
    assert_eq!(lines[5].detail_code.as_deref(), Some("protected_permission"));
    assert_eq!(actions[6].2, PlanAction::Unchanged);
    assert_eq!(lines[7].detail_code.as_deref(), Some("permission_not_registered"));
    assert_eq!(lines[8].detail_code.as_deref(), Some("permission_catalog_mismatch"));
    assert_eq!(lines[8].detail.as_deref(), Some("接口权限代码大小写与目标注册目录不一致"));
    assert_eq!(actions[9].2, PlanAction::Create);
    assert_eq!(lines[10].detail_code.as_deref(), Some("route_not_registered"));
    assert_eq!(lines[11].detail.as_deref(), Some("目标端注册的页面路由类型与配置包不一致"));
    assert_eq!(actions[12], ("role".to_string(), "admin".to_string(), PlanAction::Create));

    let (counts, items) = build_plan_items(lines).unwrap();
    assert_eq!(items.len(), 13);
    assert_eq!(items[5].action, "blocked");
    assert_eq!(items[5].outcome, "pending");
    let blocked = counts.get("blocked").copied();
    assert_eq!(blocked, Some(5));
    assert_eq!(counts.get("create").copied(), Some(5));
}

fn item(kind: &str, key: &str, action: &str) -> TransferItem {
    TransferItem {
        resource_type: kind.into(),
        stable_key: key.into(),
        display_name: key.into(),
        action: action.into(),
        outcome: "pending".into(),
        detail_code: None,
        detail: None,
    }
}

#[test]
fn outcomes_and_created_keys() {
    let items = vec![item("post", "CEO", "create"), item("post", "cto", "unchanged"), item("role", "R", "create"), item("post", "Cfo", "create")];
    assert_eq!(created_keys(&items, "post"), vec!["ceo".to_string(), "cfo".to_string()]);
    let marked = mark_plan_outcome(items, "applied");
    assert_eq!(marked[0].outcome, "applied");
    assert_eq!(marked[1].outcome, "skipped");
    let failed = mark_plan_outcome(marked, "failed");
    assert_eq!(failed[0].outcome, "failed");
    assert_eq!(failed[1].outcome, "skipped");
    assert_eq!(transfer_item_vo(item("menu", "m", "update")).action, "update");
    assert_eq!(normalize_department_path(&["A".to_string(), "b".to_string()]), vec!["A".to_string(), "b".to_string()]);
}

fn apply(hash: &str) -> TransferOperationRequest {
    TransferOperationRequest::Apply(ApplyTenantConfigTransferCommand {
        plan_hash: hash.into(),
        target_configuration_version: 3,
        target_authorization_epoch: 4,
        idempotency_key_hash: "k".into(),
    })
}

#[test]
fn lifecycle_runs_preview_apply_rollback() {
    let state = new_transfer_state(7, 3, 4, 0);
    assert!(ensure_requester(&state, 7).is_ok());
    assert!(matches!(ensure_requester(&state, 8), Err(AppError::Authorization(_))));
    assert!(matches!(validate_operation_request(&state, &apply("h")), Err(AppError::Conflict(_))));
    assert_eq!(check_enqueued(&state, &TransferOperationRequest::Preview, 100, true), Ok(EnqueueStep::Proceed));

    let state = begin_operation(state, &TransferOperationRequest::Preview, 100, &[], 1).unwrap();
    assert_eq!(state.status, TransferStatus::PreviewPending);
    assert_eq!(operation_job_id(&state, &TransferOperationRequest::Preview), Some(100));
    assert_eq!(check_enqueued(&state, &TransferOperationRequest::Preview, 100, false), Ok(EnqueueStep::Replay));
    assert!(matches!(check_enqueued(&state, &TransferOperationRequest::Preview, 101, false), Err(AppError::Conflict(_))));
    assert!(matches!(mark_running(new_transfer_state(7, 3, 4, 0), TransferJobKind::Preview, 100, 2), Err(AppError::Conflict(_))));
    let mut state = mark_running(state, TransferJobKind::Preview, 100, 2).unwrap();
    assert_eq!(state.status, TransferStatus::Previewing);
    assert_eq!(state.status.as_str(), "previewing");

    state.status = TransferStatus::Previewed;
    state.plan_hash = Some("h".into());
    assert!(ensure_preview_identity(&state, 3, 4, "h").is_ok());
    assert!(matches!(ensure_preview_identity(&state, 3, 5, "h"), Err(AppError::Conflict(_))));
    assert!(matches!(begin_operation(state, &apply("other"), 200, &[], 3), Err(AppError::Conflict(_))));

    let mut state = new_transfer_state(7, 3, 4, 0);
    state.status = TransferStatus::Previewed;
    state.plan_hash = Some("h".into());
    state.rollback_background_job_id = Some(50);
    assert_eq!(superseded_job_candidates(&state, &apply("h")), vec![50]);
    let state = begin_operation(state, &apply("h"), 200, &[50], 3).unwrap();
    assert_eq!(state.status, TransferStatus::ApplyPending);
    assert_eq!(state.rollback_background_job_id, None);
    assert_eq!(check_enqueued(&state, &apply("h"), 200, false), Ok(EnqueueStep::Replay));
    assert!(matches!(check_enqueued(&state, &apply("x"), 200, false), Err(AppError::Conflict(_))));
    let mut state = mark_running(state, TransferJobKind::Apply, 200, 4).unwrap();
    assert_eq!(state.status, TransferStatus::Applying);
    state.status = TransferStatus::Applied;
    let state = begin_operation(state, &TransferOperationRequest::Rollback, 300, &[], 5).unwrap();
    assert_eq!(state.status, TransferStatus::RollbackPending);
    assert!(matches!(mark_running(state, TransferJobKind::Rollback, 299, 6), Err(AppError::Conflict(_))));
}

#[test]
fn bundles_and_request_identity() {
    assert!(ensure_bundle_available(true, None, 10).is_ok());
    assert!(ensure_bundle_available(true, Some(11), 10).is_ok());
    assert!(matches!(ensure_bundle_available(true, Some(10), 10), Err(AppError::Conflict(_))));
    assert!(matches!(ensure_bundle_available(false, None, 10), Err(AppError::Conflict(_))));
    assert!(ensure_transfer_request_identity("upload", "f", "upload", "f").is_ok());
    assert!(matches!(ensure_transfer_request_identity("upload", "f", "from_package", "f"), Err(AppError::Conflict(_))));
}

#[test]
fn a_package_against_itself_plans_no_change() {
    let c = catalog();
    let ps = vec![
        perm("system:user:list", None, "api"),
        perm("system:menu", None, "menu"),
        perm("system:unknown", None, "api"),
    ];
    let lines = compare_permissions(&ps, &ps, &c.api_permission_codes);
    assert_eq!(lines.len(), 3);
    assert!(lines[0].action == PlanAction::Unchanged);
    assert!(lines[1].action == PlanAction::Unchanged);
    assert!(lines[2].action == PlanAction::Blocked);

    let ms = vec![
        menu("system", None, "M", None, Some("system")),
        menu("system.user", Some("system"), "C", None, Some("system.user")),
        menu("system.user.add", Some("system.user"), "F", Some("system:user:add"), None),
    ];
    let lines = compare_menus(&ms, &ms, &c.page_routes);
    assert!(lines.iter().all(|l| l.action == PlanAction::Unchanged));

    let rs = vec![role("admin", &["system:user:list"]), role("guest", &[])];
    let lines = compare_simple("role", &rs, &rs);
    assert!(lines.iter().all(|l| l.action == PlanAction::Unchanged));
    let fewer = vec![role("admin", &["system:user:add"])];
    let lines = compare_simple("role", &rs, &fewer);
    assert!(lines[0].action == PlanAction::Update);
    assert!(lines[1].action == PlanAction::Create);
}

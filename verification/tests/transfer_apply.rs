use ryframe_service::error::AppError;
use ryframe_service::idset::IdSet;
use ryframe_service::strset::{StrMap, StrSet};
use ryframe_service::transfer::apply::{
    changed_keys, check_permission_unreferenced, check_requester_snapshot, check_role_quota, role_create_count, check_rollback_references, check_snapshot_restorable,
    department_ancestors, dict_data_key, ids_with_created_keys, plan_department_upserts, plan_role_upsert,
    upsert_identity,
};
use ryframe_service::transfer::assemble::{
    assemble_package_resources, find_last, portable_menus, portable_permissions, DeptRow, MenuRow, PermissionRow,
    RoleRow, StoredConfiguration,
};
use ryframe_service::transfer::plan::{PlanAction, PlanItemDescription, TransferItem};
use ryframe_service::transfer::portable::{PortableDepartment, PortableMenu, PortablePermission, PortableRole};
use ryframe_service::transfer::upsert::{
    plan_menu_upserts, plan_permission_upserts, KnownMenu, KnownPermission, PermissionUpsert, UpsertStep,
};

fn ids(v: &[i64]) -> IdSet {
    let mut s = IdSet::new();
    for x in v {
        s.insert(*x);
    }
    s
}

fn prow(id: i64, parent: Option<i64>, code: &str) -> PermissionRow {
    PermissionRow {
        id,
        parent_id: parent,
        code: code.into(),
        name: format!("n-{code}"),
        permission_type: "api".into(),
        icon: None,
        sort: id as i32,
        status: "0".into(),
    }
}

fn mrow(id: i64, parent: Option<i64>, menu_type: &str, perm: Option<i64>) -> MenuRow {
    MenuRow {
        id,
        parent_id: parent,
        name: format!("m{id}"),
        menu_type: menu_type.into(),
        perm_id: perm,
        route_key: Some(format!("r{id}")),
        icon: None,
        sort: 1,
        visible: true,
        status: "0".into(),
        remark: None,
    }
}

#[test]
fn permissions_and_menus_are_rewritten_by_code_and_key() {
    let rows = vec![prow(1, None, "sys:a"), prow(2, Some(1), "sys:a:b"), prow(3, None, "*")];
    let out = portable_permissions(&rows, &ids(&[1, 2])).unwrap();
    assert_eq!(out.len(), 2);
    assert_eq!(out[1].code, "sys:a:b");
    assert_eq!(out[1].parent_code.as_deref(), Some("sys:a"));
    assert_eq!(out[0].parent_code, None);
    assert_eq!(out[1].name, "n-sys:a:b");
    assert!(matches!(portable_permissions(&rows, &ids(&[2])), Err(AppError::Validation(_))));

    let menus = vec![mrow(10, None, "M", None), mrow(11, Some(10), "C", Some(2))];
    let keys = vec![(10, "route:3:r10".to_string()), (11, "route:3:r11".to_string())];
    let out = portable_menus(&menus, &ids(&[10, 11]), &keys, &rows, &ids(&[1, 2])).unwrap();
    assert_eq!(out.len(), 2);
    assert_eq!(out[1].stable_key, "route:3:r11");
    assert_eq!(out[1].parent_stable_key.as_deref(), Some("route:3:r10"));
    assert_eq!(out[1].permission_code.as_deref(), Some("sys:a:b"));
    assert_eq!(
        portable_menus(&menus, &ids(&[10, 11]), &keys[..1], &rows, &ids(&[1, 2])).err(),
        Some(AppError::Validation("菜单稳定键解析失败".into()))
    );
    assert_eq!(
        portable_menus(&menus, &ids(&[10, 11]), &keys, &rows, &ids(&[1])).err(),
        Some(AppError::Validation("菜单权限不存在".into()))
    );
    assert_eq!(find_last(&[(1, "a"), (2, "b"), (1, "c")], 1), Some(2));
    assert_eq!(find_last(&[(1, "a")], 5), None);
}

#[test]
fn package_resources_are_assembled() {
    let config = StoredConfiguration {
        departments: vec![DeptRow { id: 5, sort: 1, status: "0".into(), remark: None }],
        department_paths: vec![(5, vec!["总部".to_string()])],
        posts: vec![],
        dict_types: vec![],
        dict_data: vec![],
        configs: vec![],
        permissions: vec![prow(1, None, "sys:a"), prow(2, None, "platform:x")],
        portable_permission_ids: ids(&[1]),
        menus: vec![],
        menu_keys: vec![],
        portable_menu_ids: ids(&[]),
        roles: vec![
            RoleRow { id: 7, code: "r".into(), name: "R".into(), data_scope: "2".into(), status: "0".into(), sort: 1, remark: None },
            RoleRow { id: 7, code: "dup".into(), name: "D".into(), data_scope: "1".into(), status: "0".into(), sort: 2, remark: None },
        ],
        role_permissions: vec![(7, 1), (7, 2), (8, 1)],
        role_departments: vec![(7, 5)],
    };
    let resources = assemble_package_resources(config).unwrap();
    assert_eq!(resources.permissions.len(), 1);
    assert_eq!(resources.roles.len(), 2);
    assert_eq!(resources.roles[0].permission_codes, vec!["sys:a".to_string()]);
    assert_eq!(resources.roles[0].custom_department_paths, vec![vec!["总部".to_string()]]);
    assert!(resources.roles[1].permission_codes.is_empty());
    assert_eq!(resources.departments[0].path, vec!["总部".to_string()]);

    let broken = StoredConfiguration {
        departments: vec![DeptRow { id: 6, sort: 1, status: "0".into(), remark: None }],
        department_paths: vec![(5, vec!["总部".to_string()])],
        posts: vec![],
        dict_types: vec![],
        dict_data: vec![],
        configs: vec![],
        permissions: vec![],
        portable_permission_ids: ids(&[]),
        menus: vec![],
        menu_keys: vec![],
        portable_menu_ids: ids(&[]),
        roles: vec![],
        role_permissions: vec![],
        role_departments: vec![],
    };
    assert_eq!(assemble_package_resources(broken).err(), Some(AppError::Validation("部门路径不存在".into())));
}

fn pp(code: &str, parent: Option<&str>) -> PortablePermission {
    PortablePermission {
        code: code.into(),
        name: code.into(),
        parent_code: parent.map(str::to_string),
        permission_type: "api".into(),
        icon: None,
        sort: 1,
        status: "0".into(),
    }
}

fn set(values: &[&str]) -> StrSet {
    let mut s = StrSet::new();
    for v in values {
        s.insert(v.to_string());
    }
    s
}

#[test]
fn permissions_are_written_parent_first() {
    // The child comes first in the package; its parent is new, so it waits one round.
    let items = vec![pp("Sys:A:B", Some("sys:a")), pp("sys:a", Some("root")), pp("sys:c", None)];
    let mut existing = StrMap::new();
    existing.upsert("root".to_string(), KnownPermission { id: 100, perm_type: "api".into() });
    existing.upsert("sys:c".to_string(), KnownPermission { id: 300, perm_type: "api".into() });
    let changed = set(&["sys:a:b", "sys:a"]);
    let writes = plan_permission_upserts(&items, existing, &changed, &[1, 2, 3]).unwrap();
    assert_eq!(writes.len(), 2);
    assert_eq!((writes[0].index, writes[0].id, writes[0].parent_id, writes[0].exists), (1, 2, Some(100), false));
    assert_eq!((writes[1].index, writes[1].id, writes[1].parent_id), (0, 1, Some(2)));

    let cycle = vec![pp("a", Some("b")), pp("b", Some("a"))];
    assert_eq!(
        plan_permission_upserts(&cycle, StrMap::new(), &set(&["a", "b"]), &[1, 2]).err().map(|e| e.message().to_string()),
        Some("权限父子层级存在循环或缺少父权限".to_string())
    );
    let orphan = vec![pp("a", Some("zzz"))];
    assert_eq!(
        plan_permission_upserts(&orphan, StrMap::new(), &set(&["a"]), &[1]).err(),
        Some(AppError::Conflict("权限 a 的父权限不存在".into()))
    );
    let wildcard = vec![pp("sys:*", None)];
    assert!(matches!(plan_permission_upserts(&wildcard, StrMap::new(), &set(&[]), &[1]), Err(AppError::Validation(_))));
    let mut typed = StrMap::new();
    typed.upsert("a".to_string(), KnownPermission { id: 9, perm_type: "menu".into() });
    assert_eq!(
        plan_permission_upserts(&[pp("a", None)], typed, &set(&["a"]), &[1]).err(),
        Some(AppError::Conflict("目标权限 a 的类型与配置包不一致".into()))
    );

    let mut machine = PermissionUpsert::start(&[pp("x", None)], StrMap::new());
    assert!(matches!(machine.step(&[pp("x", None)], &set(&[]), &[5]), UpsertStep::Skip));
    assert!(matches!(machine.step(&[pp("x", None)], &set(&[]), &[5]), UpsertStep::NextRound));
    assert!(matches!(machine.step(&[pp("x", None)], &set(&[]), &[5]), UpsertStep::Done));
}

fn pm(key: &str, parent: Option<&str>, menu_type: &str, perm: Option<&str>, route: Option<&str>) -> PortableMenu {
    PortableMenu {
        stable_key: key.into(),
        parent_stable_key: parent.map(str::to_string),
        name: key.into(),
        menu_type: menu_type.into(),
        permission_code: perm.map(str::to_string),
        route_key: route.map(str::to_string),
        icon: None,
        sort: 1,
        visible: true,
        status: "0".into(),
        remark: None,
    }
}

#[test]
fn menus_are_written_parent_first() {
    let items = vec![
        pm("action:x", Some("route:p"), "F", Some("sys:a"), None),
        pm("route:p", None, "C", Some("sys:a"), Some("p")),
    ];
    let mut perms = StrMap::new();
    perms.upsert("sys:a".to_string(), 42i64);
    let writes = plan_menu_upserts(&items, StrMap::new(), &perms, &set(&["action:x", "route:p"]), &[1, 2]).unwrap();
    assert_eq!(writes.len(), 2);
    assert_eq!((writes[0].index, writes[0].id, writes[0].parent_id, writes[0].perm_id), (1, 2, None, Some(42)));
    assert_eq!((writes[1].index, writes[1].parent_id), (0, Some(2)));

    let mut known = StrMap::new();
    known.upsert("action:y".to_string(), KnownMenu { id: 8, menu_type: "F".into() });
    let under_action = vec![pm("action:z", Some("action:y"), "F", Some("sys:a"), None)];
    assert_eq!(
        plan_menu_upserts(&under_action, known, &perms, &set(&["action:z"]), &[1]).err(),
        Some(AppError::Validation("菜单 action:z 不能将操作菜单作为父菜单".into()))
    );
    let unknown_perm = vec![pm("route:q", None, "C", Some("nope"), Some("q"))];
    assert_eq!(
        plan_menu_upserts(&unknown_perm, StrMap::new(), &perms, &set(&["route:q"]), &[1]).err(),
        Some(AppError::Conflict("菜单引用的权限 nope 不存在".into()))
    );
    let no_route = vec![pm("route:d", None, "M", None, None)];
    assert_eq!(
        plan_menu_upserts(&no_route, StrMap::new(), &perms, &set(&[]), &[1]).err(),
        Some(AppError::Validation("目录菜单必须声明 route_key".into()))
    );
}

fn item(resource_type: &str, key: &str, action: &str) -> TransferItem {
    TransferItem {
        resource_type: resource_type.into(),
        stable_key: key.into(),
        display_name: key.into(),
        action: action.into(),
        outcome: "pending".into(),
        detail_code: None,
        detail: None,
    }
}

#[test]
fn apply_keys_ancestry_and_identities() {
    let items = vec![
        item("post", "CEO", "create"),
        item("post", "CTO", "update"),
        item("post", "CFO", "unchanged"),
        item("department", "2:HQ", "create"),
    ];
    assert_eq!(changed_keys(&items, "post").into_vec(), vec!["ceo".to_string(), "cto".to_string()]);
    assert_eq!(changed_keys(&items, "department").into_vec(), vec!["2:HQ".to_string()]);
    assert_eq!(department_ancestors(None, None), "0");
    assert_eq!(department_ancestors(Some(5), Some("0,1")), "0,1,5");
    assert_eq!(department_ancestors(Some(5), None), "0,5");
    assert_eq!(dict_data_key("性别", "1"), "6:性别:1");
    assert_eq!(upsert_identity(Some((3, 10)), 99, 50), (3, 10, true));
    assert_eq!(upsert_identity(None, 99, 50), (99, 50, false));
    let created = {
        let mut s = StrSet::new();
        s.insert("ceo".to_string());
        s
    };
    assert_eq!(ids_with_created_keys(&[(1, "CEO".to_string()), (2, "CTO".to_string())], "post", &created), vec![1]);
}

#[test]
fn rollback_reference_checks() {
    assert_eq!(check_rollback_references(0, 0, &[3], &ids(&[3])), Ok(()));
    assert_eq!(
        check_rollback_references(1, 0, &[], &ids(&[])),
        Err(AppError::Conflict("应用创建的角色已经分配给用户，不能自动回滚".into()))
    );
    assert!(matches!(check_rollback_references(0, 2, &[], &ids(&[])), Err(AppError::Conflict(_))));
    assert_eq!(
        check_rollback_references(0, 0, &[4], &ids(&[3])),
        Err(AppError::Conflict("应用创建的部门已经被迁移范围外的角色数据范围引用，不能自动回滚".into()))
    );
    let ok = PlanItemDescription {
        resource_type: "post".into(),
        stable_key: "a".into(),
        display_name: "a".into(),
        action: PlanAction::Update,
        detail_code: None,
        detail: None,
    };
    let blocked = PlanItemDescription { action: PlanAction::Blocked, ..ok.clone_description() };
    assert_eq!(check_snapshot_restorable(&[ok.clone_description()]), Ok(()));
    assert!(matches!(check_snapshot_restorable(&[ok, blocked]), Err(AppError::Conflict(_))));
    assert_eq!(check_permission_unreferenced(0, 0), Ok(()));
    assert_eq!(check_permission_unreferenced(0, 1), Err(AppError::Conflict("应用创建的权限仍被引用，不能自动回滚".into())));
}

trait CloneDescription {
    fn clone_description(&self) -> PlanItemDescription;
}

impl CloneDescription for PlanItemDescription {
    fn clone_description(&self) -> PlanItemDescription {
        PlanItemDescription {
            resource_type: self.resource_type.clone(),
            stable_key: self.stable_key.clone(),
            display_name: self.display_name.clone(),
            action: self.action,
            detail_code: self.detail_code.clone(),
            detail: self.detail.clone(),
        }
    }
}

#[test]
fn roles_and_departments_are_planned() {
    let role = PortableRole {
        code: "ops".into(),
        name: "Ops".into(),
        data_scope: "2".into(),
        status: "0".into(),
        sort: 1,
        remark: None,
        permission_codes: vec!["Sys:A".into()],
        custom_department_paths: vec![vec!["HQ".into()]],
    };
    let mut perms = StrMap::new();
    perms.upsert("sys:a".to_string(), 11i64);
    let mut depts = StrMap::new();
    depts.upsert("2:HQ".to_string(), 21i64);
    let w = plan_role_upsert(&role, Some((5, false)), &perms, &depts, 99).unwrap();
    assert_eq!((w.id, w.exists, w.permission_ids.clone(), w.department_ids.clone()), (5, true, vec![11], vec![21]));
    assert!(matches!(plan_role_upsert(&role, Some((5, true)), &perms, &depts, 99), Err(AppError::Conflict(_))));
    assert_eq!(
        plan_role_upsert(&role, None, &StrMap::new(), &depts, 99).err(),
        Some(AppError::Conflict("角色引用的权限 Sys:A 不存在".into()))
    );
    let wild = PortableRole { permission_codes: vec!["platform:tenant:list".into()], ..role };
    assert!(matches!(plan_role_upsert(&wild, None, &perms, &depts, 99), Err(AppError::Validation(_))));

    let items = vec![
        PortableDepartment { path: vec!["HQ".into(), "IT".into()], sort: 1, status: "0".into(), remark: None },
        PortableDepartment { path: vec!["HQ".into(), "IT".into(), "Ops".into()], sort: 2, status: "0".into(), remark: None },
    ];
    let mut existing = StrMap::new();
    existing.upsert("2:HQ".to_string(), 1i64);
    let changed = set(&["2:HQ/2:IT", "2:HQ/2:IT/3:Ops"]);
    let writes = plan_department_upserts(&items, &changed, existing, &[(1, "0".to_string())], &[50, 60]).unwrap();
    assert_eq!(writes.len(), 2);
    assert_eq!((writes[0].id, writes[0].parent_id, writes[0].ancestors.as_str(), writes[0].name.as_str()), (50, Some(1), "0,1", "IT"));
    assert_eq!((writes[1].id, writes[1].parent_id, writes[1].ancestors.as_str()), (60, Some(50), "0,1,50"));
    assert_eq!(
        plan_department_upserts(&items[1..], &changed, StrMap::new(), &[], &[1]).err(),
        Some(AppError::Conflict("部门父路径不存在".into()))
    );
}

#[test]
fn role_creations_are_counted() {
    let items = vec![
        item("role", "r1", "create"),
        item("role", "r2", "update"),
        item("menu", "m1", "create"),
        item("role", "r1", "create"),
    ];
    assert_eq!(role_create_count(&items), 2);
    assert_eq!(role_create_count(&[]), 0);
}

#[test]
fn role_quota_is_enforced_only_when_roles_are_created_under_a_limit() {
    assert!(check_role_quota(10, 0, 5).is_ok());
    assert!(check_role_quota(10, 3, 0).is_ok());
    assert!(check_role_quota(10, 3, -1).is_ok());
    assert!(check_role_quota(2, 3, 5).is_ok());
    assert!(matches!(check_role_quota(3, 3, 5), Err(AppError::Validation(_))));
    assert!(matches!(check_role_quota(u64::MAX, 1, 5), Err(AppError::Validation(_))));
}

#[test]
fn requester_snapshot_must_still_hold() {
    assert!(check_requester_snapshot("t1", 3, 7, "t1", 3, true, true, Some((true, 7))).is_ok());
    assert!(matches!(
        check_requester_snapshot("t1", 3, 7, "t2", 3, true, true, Some((true, 7))),
        Err(AppError::Conflict(_))
    ));
    assert!(matches!(
        check_requester_snapshot("t1", 2, 7, "t1", 3, true, true, Some((true, 7))),
        Err(AppError::Conflict(_))
    ));
    assert!(matches!(
        check_requester_snapshot("t1", 3, 7, "t1", 3, false, true, Some((true, 7))),
        Err(AppError::NotFound(_))
    ));
    assert!(matches!(
        check_requester_snapshot("t1", 3, 7, "t1", 3, true, false, Some((true, 7))),
        Err(AppError::Authorization(_))
    ));
    assert!(matches!(
        check_requester_snapshot("t1", 3, 7, "t1", 3, true, true, None),
        Err(AppError::NotFound(_))
    ));
    assert!(matches!(
        check_requester_snapshot("t1", 3, 7, "t1", 3, true, true, Some((false, 7))),
        Err(AppError::Authorization(_))
    ));
    assert!(matches!(
        check_requester_snapshot("t1", 3, 7, "t1", 3, true, true, Some((true, 8))),
        Err(AppError::Authorization(_))
    ));
}

#[test]
fn a_parent_changed_from_an_action_before_its_child_is_accepted() {
    let mut perms = StrMap::new();
    perms.upsert("sys:a".to_string(), 42i64);
    let mut known = StrMap::new();
    known.upsert("route:p".to_string(), KnownMenu { id: 8, menu_type: "F".into() });
    let items = vec![
        pm("route:p", None, "C", Some("sys:a"), Some("p")),
        pm("action:x", Some("route:p"), "F", Some("sys:a"), None),
    ];
    let writes = plan_menu_upserts(&items, known, &perms, &set(&["route:p", "action:x"]), &[1, 2]).unwrap();
    assert_eq!(writes.len(), 2);
    assert_eq!((writes[1].index, writes[1].parent_id), (1, Some(8)));
}

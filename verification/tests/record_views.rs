use ryframe_service::config::{config_vo, StoredConfig};
use ryframe_service::dept::{dept_vo, StoredDept};
use ryframe_service::export::{export_job_vo, StoredExportJob};
use ryframe_service::dict::{dict_type_vo, StoredDictType};
use ryframe_service::menu::{menu_vo, StoredMenu};
use ryframe_service::permission::{permission_vo, StoredPermission};
use ryframe_service::role::{role_detail_needs_depts, role_detail_vo, role_vo, StoredRole};

fn role(scope: &str) -> StoredRole {
    StoredRole {
        id: 9007199254740993,
        tenant_id: "t".into(),
        name: "管理员".into(),
        code: "admin".into(),
        is_super: false,
        data_scope: scope.into(),
        status: "0".into(),
        sort: 2,
        remark: None,
        created_at: 10,
        updated_at: 11,
    }
}

#[test]
fn listing_views_render_ids_in_decimal() {
    let c = config_vo(StoredConfig {
        id: 42,
        tenant_id: "t".into(),
        name: "n".into(),
        key: "sys.k".into(),
        value: "v".into(),
        portable: true,
        remark: Some("r".into()),
        del_flag: "0".into(),
        created_at: 5,
        updated_at: 6,
    });
    assert_eq!((c.id.as_str(), c.key.as_str(), c.created_at), ("42", "sys.k", 5));

    let p = permission_vo(StoredPermission {
        id: 7,
        tenant_id: "t".into(),
        name: "list".into(),
        code: "system:user:list".into(),
        parent_id: Some(3),
        perm_type: "api".into(),
        icon: None,
        sort: 1,
        status: "0".into(),
        created_at: 1,
        updated_at: 1,
    });
    assert_eq!(p.id, "7");
    assert_eq!(p.parent_id.as_deref(), Some("3"));
    assert_eq!(p.perm_type, "api");

    let m = menu_vo(StoredMenu {
        id: 8,
        tenant_id: "t".into(),
        name: "用户".into(),
        parent_id: None,
        menu_type: "C".into(),
        perm_id: Some(-1),
        route_key: Some("system.user".into()),
        icon: None,
        sort: 3,
        visible: true,
        status: "0".into(),
        remark: None,
        created_at: 2,
        updated_at: 2,
    });
    assert_eq!(m.id, "8");
    assert_eq!(m.parent_id, None);
    assert_eq!(m.perm_id.as_deref(), Some("-1"));
    assert!(m.visible);

    let d = dept_vo(StoredDept {
        id: 100,
        tenant_id: "t".into(),
        name: "研发".into(),
        parent_id: Some(1),
        ancestors: "0,1".into(),
        sort: 1,
        status: "0".into(),
        remark: None,
        created_at: 3,
        updated_at: 3,
    });
    assert_eq!((d.id.as_str(), d.parent_id.as_deref(), d.ancestors.as_str()), ("100", Some("1"), "0,1"));

    let t = dict_type_vo(StoredDictType {
        id: 5,
        tenant_id: "t".into(),
        name: "性别".into(),
        code: "sys_user_sex".into(),
        status: "0".into(),
        remark: None,
        del_flag: "0".into(),
        created_at: 4,
        updated_at: 4,
    });
    assert_eq!((t.id.as_str(), t.code.as_str()), ("5", "sys_user_sex"));
}

#[test]
fn role_detail_lists_departments_only_under_custom_scope() {
    let listed = role_vo(role("2"));
    assert_eq!(listed.id, "9007199254740993");
    assert!(listed.dept_ids.is_none());
    assert!(role_detail_needs_depts("2"));
    assert!(!role_detail_needs_depts("1"));
    let custom = role_detail_vo(role("2"), &[10, 20]);
    assert_eq!(custom.dept_ids, Some(vec!["10".to_string(), "20".to_string()]));
    let custom_empty = role_detail_vo(role("2"), &[]);
    assert_eq!(custom_empty.dept_ids, Some(Vec::new()));
    let all = role_detail_vo(role("1"), &[10]);
    assert!(all.dept_ids.is_none());
}

#[test]
fn export_job_view_hides_nothing_but_the_payload() {
    let vo = export_job_vo(StoredExportJob {
        id: 123,
        tenant_id: "t".into(),
        resource: "users".into(),
        status: "succeeded".into(),
        result_file_name: Some("users.xlsx".into()),
        content_type: None,
        file_size: Some(2048),
        expires_at: Some(99),
        error_message: None,
        created_at: 1,
        updated_at: 2,
        completed_at: Some(3),
        notification_read_at: None,
    });
    assert_eq!(vo.id, "123");
    assert_eq!(vo.resource, "users");
    assert_eq!(vo.file_size, Some(2048));
    assert_eq!(vo.completed_at, Some(3));
}

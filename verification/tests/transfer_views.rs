use ryframe_service::error::AppError;
use ryframe_service::transfer::lifecycle::new_transfer_state;
use ryframe_service::transfer::views::{
    bundle_summary_vo, bundle_vo, json_counts, BundleRecord, TenantConfigTransferVo, TransferRecord,
};

fn bundle() -> BundleRecord {
    BundleRecord {
        id: 77,
        tenant_id: "t1".into(),
        origin: "upload".into(),
        source_tenant_key: "acme".into(),
        source_tenant_name_snapshot: "Acme".into(),
        package_schema_version: "1".into(),
        source_app_version: "0.9.0".into(),
        sha256: Some("ab".into()),
        resource_counts: vec![("role".into(), Some(3)), ("menu".into(), None), ("dept".into(), Some(2))],
        item_count: 5,
        status: "succeeded".into(),
        error_summary: Some("none".into()),
        expires_at: Some(900),
        created_at: 100,
        updated_at: 200,
    }
}

#[test]
fn counts_keep_only_unsigned_integers() {
    let m = json_counts(&[("a".into(), Some(1)), ("b".into(), None), ("a".into(), Some(4))]);
    assert_eq!(m.get("a"), Some(&4));
    assert_eq!(m.get("b"), None);
    assert_eq!(m.len(), 1);
    assert_eq!(json_counts(&[]).len(), 0);
}

#[test]
fn bundle_views() {
    let vo = bundle_vo(bundle());
    assert_eq!(vo.id, "77");
    assert_eq!(vo.source_tenant_name, "Acme");
    assert_eq!(vo.resource_counts.get("role"), Some(&3));
    assert_eq!(vo.resource_counts.get("menu"), None);
    assert_eq!(vo.error_summary.as_deref(), Some("none"));
    let summary = bundle_summary_vo(&bundle());
    assert_eq!(summary.origin, "upload");
    assert_eq!(summary.resource_counts.get("dept"), Some(&2));
    assert_eq!(summary.expires_at, Some(900));
}

#[test]
fn transfer_view_requires_its_own_bundle() {
    let record = |tenant: &str, bundle_id: i64| TransferRecord {
        id: 5,
        tenant_id: tenant.into(),
        bundle_id,
        state: new_transfer_state(9, 12, 3, 1000),
        change_counts: vec![("create".into(), Some(2))],
        created_at: 1000,
    };
    let vo = TenantConfigTransferVo::from_models(record("t1", 77), &bundle()).ok().unwrap();
    assert_eq!(vo.id, "5");
    assert_eq!(vo.status, "preview_ready");
    assert_eq!(vo.target_configuration_version, 12);
    assert_eq!(vo.target_authorization_epoch, 3);
    assert_eq!(vo.change_counts.get("create"), Some(&2));
    assert_eq!(vo.bundle_summary.source_tenant_key, "acme");
    assert_eq!(vo.created_at, 1000);
    assert!(matches!(TenantConfigTransferVo::from_models(record("t2", 77), &bundle()), Err(AppError::Internal(_))));
    assert!(matches!(TenantConfigTransferVo::from_models(record("t1", 78), &bundle()), Err(AppError::Internal(_))));
}

use ryframe_service::error::AppError;
use ryframe_service::product::{
    project_client_config, CapabilityDescriptor,
    capability_models, override_models,
    capability_descriptor, constant_time_eq, ensure_override_change_allowed, ensure_platform_actor,
    normalize_capability_snapshots, string_slice, validate_capability_snapshot, validate_name,
    validate_plan_key, validate_plan_status, CapabilityOverrideInput, CapabilityOverrideVo,
    CapabilitySnapshotInput,
};
use ryframe_service::profile::{check_password_change, normalize_preferred_locale};
use ryframe_service::retention::{
    manual_run_job, record_run_completion, record_run_failure,
    safe_error_summary,
    new_run_record,
    data_retention_run_vo, overview_at, DataRetentionCutoffVo, StoredRetentionRun,
    cutoffs, ensure_system_tenant, finished_run_status, import_artifact_cutoff, normalize_trigger_kind,
    DataRetentionConfig, DataRetentionPolicy, RetentionResource, TenantConfigTransferConfig,
};

fn config() -> DataRetentionConfig {
    DataRetentionConfig {
        cleanup_batch_size: 100,
        max_rows_per_resource_per_run: 1000,
        background_job_succeeded_days: 1,
        outbox_published_days: 2,
        schedule_execution_days: 3,
        export_job_history_days: 4,
        operation_log_days: 5,
        login_log_days: 6,
        user_import_history_days: 7,
        user_import_artifact_hours: 2,
        retention_run_days: 8,
        service_access_audit_days: 9,
    }
}

#[test]
fn retention_policy_and_cutoffs() {
    let c = config();
    let p = DataRetentionPolicy::from_configs(&c, &TenantConfigTransferConfig { artifact_hours: 12, rollback_hours: 24 });
    assert_eq!(p.tenant_config_rollback_hours, 24);
    assert!(p.dead_background_jobs_permanent && p.dead_outbox_events_permanent);
    let now = 100 * 86_400_000;
    let v = cutoffs(&c, now);
    assert_eq!(v.len(), 9);
    assert_eq!(v[0].resource, RetentionResource::BackgroundJobs);
    assert_eq!(v[0].before, 99 * 86_400_000);
    assert_eq!(v[8].resource, RetentionResource::RetentionRuns);
    assert_eq!(v[8].before, 92 * 86_400_000);
    assert_eq!(import_artifact_cutoff(&c, now), now - 2 * 3_600_000);
    assert_eq!(normalize_trigger_kind(Some("manual")), "manual");
    assert_eq!(normalize_trigger_kind(Some("other")), "scheduled");
    assert_eq!(normalize_trigger_kind(None), "scheduled");
    assert_eq!(finished_run_status(&[0, 0]), "succeeded");
    assert_eq!(finished_run_status(&[0, 3]), "partial");
    assert!(ensure_system_tenant("system").is_ok());
    assert!(matches!(ensure_system_tenant("t1"), Err(AppError::Authorization(_))));
}

#[test]
fn plan_fields() {
    assert!(validate_plan_key("pro.v2-x_1").is_ok());
    assert!(validate_plan_key("a").is_err());
    assert!(validate_plan_key("1abc").is_err());
    assert!(validate_plan_key("Abc").is_err());
    assert!(validate_plan_key(&"a".repeat(65)).is_err());
    assert!(validate_name(" 套餐 ", "名称").is_ok());
    assert_eq!(validate_name("  ", "名称"), Err(AppError::Validation("名称长度必须在 1 到 128 个字符之间".into())));
    assert!(validate_plan_status("0").is_ok());
    assert!(validate_plan_status("2").is_err());
    assert!(ensure_platform_actor("system").is_ok());
    assert!(matches!(ensure_platform_actor("t1"), Err(AppError::Authorization(_))));
    assert!(constant_time_eq(b"abc", b"abc"));
    assert!(!constant_time_eq(b"abc", b"abd"));
    assert!(!constant_time_eq(b"abc", b"ab"));
    assert_eq!(string_slice(&["a", "b"]), vec!["a".to_string(), "b".to_string()]);
}

fn snapshot(code: &str, config: &str) -> CapabilitySnapshotInput {
    CapabilitySnapshotInput {
        capability_code: code.into(),
        variant_code: "default".into(),
        schema_version: 1,
        config: config.into(),
    }
}

#[test]
fn capability_catalog_and_snapshots() {
    let d = capability_descriptor("system.service_accounts").unwrap();
    assert_eq!(d.route_keys, vec!["system.service-accounts".to_string()]);
    assert_eq!(d.permission_codes.len(), 10);
    assert!(matches!(capability_descriptor("nope"), Err(AppError::Config(_))));
    assert!(validate_capability_snapshot("system.service_accounts", "default", 1, "{}").is_ok());
    assert_eq!(
        validate_capability_snapshot("system.service_accounts", "default", 2, "{}").err(),
        Some(AppError::Validation("能力 system.service_accounts 不支持变体 default 的 schema v2".into()))
    );
    assert!(matches!(validate_capability_snapshot("system.service_accounts", "default", 1, "{\"a\":1}"), Err(AppError::Validation(_))));
    let v = normalize_capability_snapshots(vec![snapshot("system.service_accounts", "{}")]).unwrap();
    assert_eq!(v.len(), 1);
    assert!(matches!(
        normalize_capability_snapshots(vec![snapshot("system.service_accounts", "{}"), snapshot("system.service_accounts", "{}")]),
        Err(AppError::Validation(_))
    ));
    assert!(matches!(normalize_capability_snapshots(vec![snapshot("x", "{}")]), Err(AppError::Config(_))));
}

#[test]
fn override_changes_need_permission() {
    let current = vec![CapabilityOverrideVo {
        capability_code: "system.service_accounts".into(),
        enabled: true,
        variant_code: "default".into(),
        schema_version: 1,
        config: "{}".into(),
        reason: None,
        changed_by: None,
    }];
    let same = vec![CapabilityOverrideInput {
        capability_code: "system.service_accounts".into(),
        enabled: true,
        variant_code: "default".into(),
        schema_version: 1,
        config: "{}".into(),
    }];
    let changed = vec![CapabilityOverrideInput {
        capability_code: "system.service_accounts".into(),
        enabled: false,
        variant_code: "default".into(),
        schema_version: 1,
        config: "{}".into(),
    }];
    assert!(ensure_override_change_allowed(&current, &same, false).is_ok());
    assert!(matches!(ensure_override_change_allowed(&current, &changed, false), Err(AppError::PermissionDenied(_))));
    assert!(ensure_override_change_allowed(&current, &changed, true).is_ok());
    assert!(matches!(ensure_override_change_allowed(&current, &[], false), Err(AppError::PermissionDenied(_))));
}

#[test]
fn profile_locale_and_password() {
    assert_eq!(normalize_preferred_locale(None), Ok(None));
    assert_eq!(normalize_preferred_locale(Some("  ".into())), Ok(None));
    assert_eq!(normalize_preferred_locale(Some(" en-US ".into())), Ok(Some("en-US".into())));
    assert_eq!(normalize_preferred_locale(Some("zh-CN".into())), Ok(Some("zh-CN".into())));
    assert!(matches!(normalize_preferred_locale(Some("fr-FR".into())), Err(AppError::Validation(_))));
    assert!(check_password_change(true, "old", "new").is_ok());
    assert!(matches!(check_password_change(false, "old", "new"), Err(AppError::Validation(_))));
    assert!(matches!(check_password_change(true, "same", "same"), Err(AppError::Validation(_))));
}

#[test]
fn overview_appends_artifact_and_package_cutoffs() {
    let now: i64 = 10 * 86_400_000;
    let base = vec![DataRetentionCutoffVo { resource: "logs".into(), before: 5 }];
    let o = overview_at(&config(), &TenantConfigTransferConfig { artifact_hours: 12, rollback_hours: 24 }, base, now);
    assert_eq!(o.calculated_at, now);
    assert_eq!(o.policy.tenant_config_artifact_hours, 12);
    assert!(o.policy.dead_outbox_events_permanent);
    let names: Vec<&str> = o.cutoffs.iter().map(|c| c.resource.as_str()).collect();
    assert_eq!(names, vec!["logs", "user_import_artifacts", "tenant_config_packages", "tenant_config_snapshots"]);
    assert_eq!(o.cutoffs[0].before, 5);
    assert_eq!(o.cutoffs[1].before, now - 2 * 3_600_000);
    assert_eq!(o.cutoffs[2].before, now);
    assert_eq!(o.cutoffs[3].before, now);
}

#[test]
fn retention_run_view() {
    let vo = data_retention_run_vo(StoredRetentionRun {
        id: 3,
        background_job_id: 44,
        trigger_kind: "manual".into(),
        status: "succeeded".into(),
        policy_snapshot: "{}".into(),
        eligible_counts: "{\"logs\":1}".into(),
        deleted_counts: "{}".into(),
        remaining_counts: "{}".into(),
        requested_by: Some(9),
        error_summary: None,
        started_at: Some(1),
        completed_at: None,
        created_at: 1,
        updated_at: 2,
    });
    assert_eq!(vo.id, "3");
    assert_eq!(vo.background_job_id, "44");
    assert_eq!(vo.requested_by.as_deref(), Some("9"));
    assert_eq!(vo.eligible_counts, "{\"logs\":1}");
    assert_eq!(vo.updated_at, 2);
}

#[test]
fn plan_capabilities_and_overrides_are_stored_as_given() {
    let caps = capability_models(
        42,
        vec![CapabilitySnapshotInput {
            capability_code: "service_accounts".into(),
            variant_code: "standard".into(),
            schema_version: 1,
            config: "{}".into(),
        }],
        500,
    );
    assert_eq!(caps.len(), 1);
    assert_eq!(caps[0].plan_version_id, 42);
    assert_eq!(caps[0].capability_code, "service_accounts");
    assert_eq!((caps[0].created_at, caps[0].updated_at), (500, 500));
    let overrides = override_models(
        "t1",
        7,
        vec![CapabilityOverrideInput {
            capability_code: "service_accounts".into(),
            enabled: false,
            variant_code: "standard".into(),
            schema_version: 1,
            config: "{}".into(),
        }],
        600,
    );
    assert_eq!(overrides.len(), 1);
    assert_eq!(overrides[0].tenant_id, "t1");
    assert!(!overrides[0].enabled);
    assert_eq!(overrides[0].reason.as_deref(), Some("platform_override"));
    assert_eq!(overrides[0].changed_by, Some(7));
    assert!(capability_models(1, Vec::new(), 0).is_empty());
}

#[test]
fn client_config_shows_only_declared_fields() {
    let descriptor = CapabilityDescriptor {
        code: "demo".into(),
        name: "Demo".into(),
        description: String::new(),
        affects_authorization: false,
        dependencies: Vec::new(),
        conflicts: Vec::new(),
        route_keys: Vec::new(),
        permission_codes: Vec::new(),
        default_admin_permissions: Vec::new(),
        deployment_dependencies: Vec::new(),
        client_config_fields: vec!["theme".into(), "limit".into()],
        variants: Vec::new(),
    };
    let mut config = ryframe_service::strset::StrMap::new();
    config.upsert("theme".to_string(), "\"dark\"".to_string());
    config.upsert("secret".to_string(), "\"x\"".to_string());
    let shown = project_client_config(&descriptor, Some(&config));
    assert_eq!(shown.len(), 1);
    assert_eq!(shown.get("theme").map(String::as_str), Some("\"dark\""));
    assert_eq!(shown.get("secret"), None);
    assert_eq!(shown.get("limit"), None);
    assert_eq!(project_client_config(&descriptor, None).len(), 0);
}

#[test]
fn new_runs_start_pending_and_empty() {
    let r = new_run_record(1, 2, "manual", Some(3), 400);
    assert_eq!((r.id, r.background_job_id, r.trigger_kind.as_str(), r.status.as_str()), (1, 2, "manual", "pending"));
    assert_eq!((r.policy_snapshot.as_str(), r.deleted_counts.as_str()), ("{}", "{}"));
    assert_eq!((r.requested_by, r.started_at, r.created_at, r.updated_at), (Some(3), None, 400, 400));
}

#[test]
fn error_summaries_keep_the_first_500_characters() {
    assert_eq!(safe_error_summary("数据库错误"), "数据库错误");
    let long: String = "错".repeat(600);
    let summary = safe_error_summary(&long);
    assert_eq!(summary.chars().count(), 500);
    assert_eq!(summary, "错".repeat(500));
    assert_eq!(safe_error_summary(""), "");
}

#[test]
fn failed_and_completed_runs_are_stamped() {
    let run = new_run_record(1, 2, "scheduled", None, 100);
    let failed = record_run_failure(run, "数据库不可用", 250);
    assert_eq!(failed.status, "failed");
    assert_eq!(failed.error_summary.as_deref(), Some("数据库不可用"));
    assert_eq!((failed.updated_at, failed.completed_at, failed.created_at), (250, Some(250), 100));
    let partial = record_run_completion(new_run_record(3, 4, "manual", Some(7), 100), &[0, 2], 300);
    assert_eq!((partial.status.as_str(), partial.completed_at), ("partial", Some(300)));
    let done = record_run_completion(new_run_record(3, 4, "manual", Some(7), 100), &[0, 0], 300);
    assert_eq!(done.status, "succeeded");
    assert!(done.error_summary.is_none());
}

#[test]
fn manual_runs_are_deduplicated_by_key_hash() {
    let hash = "a".repeat(64);
    let job = manual_run_job(&hash, 42, 7, 1000).ok().unwrap();
    assert_eq!(job.dedupe_key, format!("manual:{hash}"));
    assert_eq!((job.priority, job.max_attempts, job.max_runtime_seconds), (-20, 20, 900));
    assert_eq!((job.run_id.as_str(), job.requested_by.as_str(), job.trigger_kind.as_str()), ("42", "7", "manual"));
    assert_eq!(job.available_at, 1000);
    assert!(matches!(manual_run_job("abc", 42, 7, 1000), Err(AppError::Validation(_))));
}

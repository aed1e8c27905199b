use ryframe_service::error::AppError;
use ryframe_service::export::{
    check_export_persist, export_cancelled, export_file_record, export_should_run, export_still_expired,
    parse_export_resource, CleanupTally, ExportJobRecord, ExportResource,
};
use ryframe_service::grants::account_permission_codes_for_accounts;
use ryframe_service::product::CapabilityOverrideInput;
use ryframe_service::product_change::{
    capability_changes, product_change_diff, product_change_hash, EffectiveCapabilityVo, ProductContextVo,
};
use ryframe_service::profile::{
    avatar_lock_order, avatar_orphan_cleanup_after, check_avatar_bucket_for_cleanup, check_avatar_file,
    superseded_avatar, AvatarFileAction,
};
use ryframe_service::retention::RunProgress;
use ryframe_service::strset::StrMap;
use ryframe_service::transfer::execute::{
    artifact_expires_at, check_apply_commit, check_rollback_commit, check_rollback_window, committed_epoch,
    export_job_should_run, job_disposition, preview_still_current, record_applied, record_preview,
    record_rolled_back, JobDisposition,
};
use ryframe_service::transfer::lifecycle::{
    new_transfer_state, validate_operation_request, TransferJobKind, TransferOperationRequest, TransferStatus,
};
use ryframe_service::upload::{
    confirm_reservation_commit, existing_reservation_outcome, mark_recovered, new_upload_reservation,
    prepare_upload, recovery_token, settle_finalization, verify_pending_object, FinalizeAttempt,
    ReservationOutcome, SysFile,
};

const HELLO_SHA256: &str = "2cf24dba5fb0a30e26e83b2ac5b9e29e1b161e5c1fa7425e73043362938b9824";

fn file(status: &str, token: Option<&str>) -> SysFile {
    SysFile {
        id: 7,
        tenant_id: "t1".into(),
        original_name: "a.png".into(),
        storage_name: "s.png".into(),
        storage_path: "t1/2024/01/02/s.png".into(),
        bucket: "avatar".into(),
        file_url: "avatar/t1/2024/01/02/s.png".into(),
        file_size: 5,
        content_type: "image/png".into(),
        file_sha256: HELLO_SHA256.into(),
        upload_by: Some("admin".into()),
        upload_status: status.into(),
        reservation_token: token.map(str::to_string),
        reservation_expires_at: Some(1_000),
        del_flag: "0".into(),
        created_at: 1,
        updated_at: 1,
    }
}

#[test]
fn transfer_jobs_run_preview_apply_and_rollback() {
    let mut state = new_transfer_state(9, 3, 4, 100);
    state.preview_background_job_id = Some(11);
    assert_eq!(job_disposition(&state, TransferJobKind::Preview, 11), JobDisposition::Run);
    assert_eq!(job_disposition(&state, TransferJobKind::Preview, 12), JobDisposition::Superseded);
    assert_eq!(job_disposition(&state, TransferJobKind::Apply, 11), JobDisposition::Superseded);
    state.status = TransferStatus::Previewing;
    assert!(preview_still_current(&state, 11));
    assert!(!preview_still_current(&state, 12));

    let mut state = record_preview(state, 5, 6, "h1".into(), 200);
    assert_eq!(state.status, TransferStatus::Previewed);
    assert_eq!(state.plan_hash.as_deref(), Some("h1"));
    assert_eq!(state.target_configuration_version, 5);
    assert_eq!(state.preview_calculated_at, Some(200));

    state.apply_background_job_id = Some(21);
    state.status = TransferStatus::Applying;
    assert_eq!(check_apply_commit(&state, 21, 5, 6, "h1", 0, 0), Ok(()));
    assert!(matches!(check_apply_commit(&state, 22, 5, 6, "h1", 0, 0), Err(AppError::Conflict(_))));
    assert_eq!(
        check_apply_commit(&state, 21, 5, 7, "h1", 0, 0),
        Err(AppError::Conflict("目标配置已变化，请重新预览".into()))
    );
    assert_eq!(check_apply_commit(&state, 21, 5, 6, "h2", 0, 0), Err(AppError::Conflict("预览计划哈希已失效".into())));
    assert_eq!(
        check_apply_commit(&state, 21, 5, 6, "h1", 1, 0),
        Err(AppError::Conflict("配置计划仍含冲突或阻断项".into()))
    );
    assert!(matches!(check_apply_commit(&state, 21, 5, 6, "h1", 0, 2), Err(AppError::Conflict(_))));

    let mut state = record_applied(state, 77, 8, 9, 1_000, 24);
    assert_eq!(state.status, TransferStatus::Applied);
    assert_eq!(state.rollback_expires_at, Some(1_000 + 24 * 3_600_000));
    assert_eq!(state.snapshot_file_id, Some(77));
    assert_eq!(committed_epoch(&state), Ok(9));
    assert_eq!(job_disposition(&state, TransferJobKind::Apply, 21), JobDisposition::Finished);
    assert_eq!(validate_operation_request(&state, &TransferOperationRequest::Rollback), Ok(()));

    assert_eq!(check_rollback_window(&state, 2_000), Ok(77));
    assert_eq!(
        check_rollback_window(&state, 1_000 + 24 * 3_600_000),
        Err(AppError::Conflict("配置回滚窗口已过期".into()))
    );
    state.rollback_background_job_id = Some(31);
    state.status = TransferStatus::RollingBack;
    assert_eq!(check_rollback_commit(&state, 31, 8, 9), Ok(()));
    assert_eq!(
        check_rollback_commit(&state, 31, 10, 9),
        Err(AppError::Conflict("应用完成后配置已被修改，不能自动回滚".into()))
    );
    assert!(matches!(check_rollback_commit(&state, 32, 8, 9), Err(AppError::Conflict(_))));
    let state = record_rolled_back(state, 10, 11, 3_000);
    assert_eq!(state.status, TransferStatus::RolledBack);
    assert_eq!(state.applied_configuration_version, Some(10));
    assert_eq!(job_disposition(&state, TransferJobKind::Rollback, 31), JobDisposition::Finished);
    assert!(validate_operation_request(&state, &TransferOperationRequest::Preview).is_err());
}

#[test]
fn rollback_needs_snapshot_and_committed_state_needs_epoch() {
    let mut state = new_transfer_state(1, 1, 1, 0);
    assert!(matches!(committed_epoch(&state), Err(AppError::Conflict(_))));
    state.rollback_expires_at = Some(10);
    assert_eq!(check_rollback_window(&state, 5), Err(AppError::Conflict("配置回滚快照不存在".into())));
    assert_eq!(export_job_should_run(Some(3), false, 3), Ok(true));
    assert_eq!(export_job_should_run(Some(3), true, 3), Ok(false));
    assert!(matches!(export_job_should_run(Some(3), false, 4), Err(AppError::Conflict(_))));
    assert_eq!(artifact_expires_at(10, 2), 10 + 7_200_000);
}

#[test]
fn retention_run_progress_accumulates() {
    let mut resumed = StrMap::new();
    resumed.upsert("oper_log".to_string(), 4u64);
    let mut progress = RunProgress::resume(resumed);
    progress.record("oper_log".to_string(), 6, 0);
    progress.record("login_log".to_string(), 2, 3);
    assert_eq!(progress.deleted.get("oper_log"), Some(&10));
    assert_eq!(progress.deleted.get("login_log"), Some(&2));
    assert_eq!(progress.remaining.get("login_log"), Some(&3));
    assert_eq!(progress.status(), "partial");
    progress.record("login_log".to_string(), 3, 0);
    assert_eq!(progress.deleted.get("login_log"), Some(&5));
    assert_eq!(progress.status(), "succeeded");
}

#[test]
fn account_codes_join_roles_and_permissions() {
    let result = account_permission_codes_for_accounts(
        &[1, 2, 3],
        &[(1, 10), (1, 11), (2, 12), (3, 10), (4, 10)],
        &[10, 11],
        &[(10, 100), (11, 101), (11, 102), (12, 100)],
        &[(100, "a:list".to_string()), (101, "b:edit".to_string()), (102, "old".to_string()), (102, "c:add".to_string())],
    );
    let mut rows: Vec<(i64, Vec<String>)> = result.into_iter().map(|(a, s)| (a, s.into_vec())).collect();
    rows.sort();
    assert_eq!(
        rows,
        vec![
            (1, vec!["a:list".to_string(), "b:edit".to_string(), "c:add".to_string()]),
            (3, vec!["a:list".to_string()]),
        ]
    );
    assert!(account_permission_codes_for_accounts(&[], &[(1, 10)], &[10], &[(10, 100)], &[(100, "x".into())]).is_empty());
}

#[test]
fn upload_reservations_and_recovery() {
    assert!(matches!(existing_reservation_outcome(file("ready", None)), ReservationOutcome::Ready(_)));
    assert!(matches!(existing_reservation_outcome(file("pending", Some("k"))), ReservationOutcome::InProgress(_)));
    let token = Some("k".to_string());
    assert!(matches!(confirm_reservation_commit(&token, Some(file("pending", Some("k")))), Ok(ReservationOutcome::Reserved(_))));
    assert!(matches!(confirm_reservation_commit(&token, Some(file("pending", Some("z")))), Err(AppError::Database(_))));
    assert!(matches!(confirm_reservation_commit(&token, Some(file("ready", None))), Ok(ReservationOutcome::Ready(_))));
    assert!(matches!(confirm_reservation_commit(&token, None), Err(AppError::Database(_))));

    assert_eq!(recovery_token(&file("pending", Some("k"))), Ok("k".to_string()));
    assert!(matches!(recovery_token(&file("cleanup", Some("k"))), Err(AppError::Conflict(_))));
    assert!(matches!(recovery_token(&file("ready", None)), Err(AppError::Internal(_))));
    assert!(matches!(recovery_token(&file("pending", None)), Err(AppError::Internal(_))));

    let pending = file("pending", Some("k"));
    assert_eq!(verify_pending_object(&pending, HELLO_SHA256, b"hello"), Ok(()));
    assert!(matches!(verify_pending_object(&pending, HELLO_SHA256, b"hellO"), Err(AppError::Conflict(_))));
    assert!(matches!(verify_pending_object(&pending, "00", b"hello"), Err(AppError::Conflict(_))));
    let recovered = mark_recovered(pending);
    assert_eq!(recovered.upload_status, "ready");
    assert_eq!(recovered.reservation_token, None);
    assert_eq!(recovered.reservation_expires_at, None);
    assert_eq!(recovered.id, 7);

    assert_eq!(settle_finalization(FinalizeAttempt::Committed, Err(AppError::Database("x".into()))), Ok(()));
    assert_eq!(settle_finalization(FinalizeAttempt::NotOwned, Ok(true)), Ok(()));
    assert_eq!(settle_finalization(FinalizeAttempt::NotOwned, Ok(false)), Err(AppError::Conflict("文件上传预留已失效".into())));
    assert_eq!(
        settle_finalization(FinalizeAttempt::NotOwned, Err(AppError::Database("read".into()))),
        Err(AppError::Database("read".into()))
    );
    assert_eq!(settle_finalization(FinalizeAttempt::Failed(AppError::Database("c".into())), Ok(true)), Ok(()));
    assert_eq!(
        settle_finalization(FinalizeAttempt::Failed(AppError::Database("c".into())), Ok(false)),
        Err(AppError::Database("c".into()))
    );
}

#[test]
fn prepared_uploads_are_digested_and_reserved() {
    let prepared = prepare_upload("a.png".into(), b"hello".to_vec(), None, "image/png".into());
    assert_eq!(prepared.final_name, "a.png");
    assert_eq!(prepared.file_sha256, HELLO_SHA256);
    let compressed = prepare_upload("a.png".into(), b"hello".to_vec(), Some((b"hi".to_vec(), "a.webp".into())), "image/webp".into());
    assert_eq!(compressed.final_data, b"hi".to_vec());
    assert_eq!(compressed.final_name, "a.webp");
    assert_eq!(compressed.original_name, "a.png");
    let model = new_upload_reservation(5, "t1", &prepared, "x.png".into(), "2024/01/02", "uploads", "admin".into(), "tok".into(), 99).unwrap();
    assert_eq!(model.storage_path, "t1/2024/01/02/x.png");
    assert_eq!(model.file_url, "uploads/t1/2024/01/02/x.png");
    assert_eq!(model.file_size, 5);
    assert_eq!(model.upload_status, "pending");
    assert_eq!(model.reservation_token.as_deref(), Some("tok"));
    assert_eq!(model.reservation_expires_at, None);
    assert_eq!(model.file_sha256, HELLO_SHA256);
}

#[test]
fn export_jobs_and_cleanup() {
    assert_eq!(parse_export_resource("dict-types"), Ok(ExportResource::DictTypes));
    assert_eq!(ExportResource::LoginLogs.as_str(), "loginlogs");
    assert_eq!(parse_export_resource("menus"), Err(AppError::Validation("不支持的导出资源: menus".into())));
    assert!(export_cancelled("cancelled"));
    assert!(export_should_run("queued", true));
    assert!(export_should_run("running", false));
    assert!(!export_should_run("queued", false));
    assert_eq!(check_export_persist("running", None, 5), Ok(true));
    assert_eq!(check_export_persist("succeeded", Some(5), 5), Ok(false));
    assert_eq!(check_export_persist("succeeded", Some(6), 5), Err(AppError::Conflict("导出任务结果文件标识冲突".into())));
    assert_eq!(check_export_persist("failed", None, 5), Err(AppError::Conflict("导出任务已不再允许运行".into())));

    let record = export_file_record(5, "t1", "roles.xlsx", "t1/roles/5.xlsx", b"hello", "admin".into(), 10).unwrap();
    assert_eq!(record.bucket, "exports");
    assert_eq!(record.file_url, "exports/t1/roles/5.xlsx");
    assert_eq!(record.file_sha256, HELLO_SHA256);
    assert_eq!(record.upload_status, "ready");
    assert_eq!(record.content_type, "application/vnd.openxmlformats-officedocument.spreadsheetml.sheet");

    let job = Some(ExportJobRecord {
        id: 1,
        tenant_id: "t1".into(),
        status: "succeeded".into(),
        result_file_id: Some(5),
        expires_at: Some(100),
    });
    assert!(export_still_expired(&job, "t1", 5, 100));
    assert!(!export_still_expired(&job, "t1", 5, 99));
    assert!(!export_still_expired(&job, "t2", 5, 100));
    assert!(!export_still_expired(&None, "t1", 5, 100));

    let mut tally = CleanupTally::new();
    tally.record(Ok(true));
    tally.record(Err(AppError::Database("first".into())));
    tally.record(Ok(false));
    tally.record(Ok(true));
    tally.record(Err(AppError::Database("second".into())));
    assert_eq!(tally.cleaned, 2);
    assert_eq!(tally.failed, 2);
    assert_eq!(tally.finish(), Err(AppError::Database("first".into())));
    let mut clean = CleanupTally::new();
    clean.record(Ok(true));
    assert_eq!(clean.finish(), Ok(1));
}

#[test]
fn avatar_changes() {
    assert_eq!(avatar_lock_order(5, Some(3)), vec![3, 5]);
    assert_eq!(avatar_lock_order(3, Some(5)), vec![3, 5]);
    assert_eq!(avatar_lock_order(5, Some(5)), vec![5]);
    assert_eq!(avatar_lock_order(5, None), vec![5]);
    assert_eq!(superseded_avatar(5, Some(3)), Some(3));
    assert_eq!(superseded_avatar(5, Some(5)), None);
    assert_eq!(check_avatar_file(&Some(file("ready", None))), Ok(AvatarFileAction::Use));
    assert_eq!(check_avatar_file(&Some(file("cleanup", None))), Ok(AvatarFileAction::Restore));
    assert_eq!(check_avatar_file(&Some(file("pending", Some("k")))), Err(AppError::Validation("头像文件尚未完成上传".into())));
    let mut other = file("ready", None);
    other.bucket = "uploads".into();
    assert_eq!(check_avatar_file(&Some(other)), Err(AppError::Validation("只能关联头像专用文件".into())));
    assert!(matches!(check_avatar_file(&None), Err(AppError::NotFound(_))));
    assert_eq!(avatar_orphan_cleanup_after(0, 1_000), Some(301_000));
    assert_eq!(avatar_orphan_cleanup_after(2, 1_000), None);
    assert!(check_avatar_bucket_for_cleanup("avatar").is_ok());
    assert!(matches!(check_avatar_bucket_for_cleanup("uploads"), Err(AppError::Validation(_))));
}

fn capability(code: &str, enabled: bool, config: &str) -> EffectiveCapabilityVo {
    EffectiveCapabilityVo {
        capability_code: code.into(),
        name: "服务账号".into(),
        enabled,
        entitled: true,
        deployment_enabled: true,
        source: "plan".into(),
        variant_code: Some("default".into()),
        schema_version: Some(1),
        config: Some(config.into()),
    }
}

fn context(version: &str, capabilities: Vec<EffectiveCapabilityVo>) -> ProductContextVo {
    ProductContextVo {
        tenant_id: "t1".into(),
        runtime_epoch: "1".into(),
        plan_key: "basic".into(),
        plan_name: "Basic".into(),
        plan_version_id: version.into(),
        plan_version: 1,
        capabilities,
    }
}

#[test]
fn product_change_diffs() {
    let off = context("1", vec![capability("system.service_accounts", false, "{}")]);
    let on = context("2", vec![capability("system.service_accounts", true, "{}")]);
    let diff = product_change_diff(&off, &on);
    assert_eq!(diff.capability_additions, vec!["system.service_accounts".to_string()]);
    assert!(diff.capability_removals.is_empty());
    assert!(diff.capability_changes.is_empty());
    assert_eq!(diff.menu_additions, vec!["system.service-accounts".to_string()]);
    assert_eq!(diff.permission_additions.len(), 10);
    assert_eq!(diff.permission_additions[0], "system:service-access-audit:list");
    assert!(diff.permission_removals.is_empty());
    assert_eq!(
        diff.warnings,
        vec!["product_plan_version_will_change".to_string(), "authorization_and_navigation_will_refresh".to_string()]
    );
    assert_eq!(capability_changes(&off, &on).len(), 1);

    let back = product_change_diff(&on, &off);
    assert_eq!(back.capability_removals, vec!["system.service_accounts".to_string()]);
    assert_eq!(back.menu_removals, vec!["system.service-accounts".to_string()]);

    let same = product_change_diff(&on, &on);
    assert!(same.capability_additions.is_empty() && same.menu_additions.is_empty() && same.warnings.is_empty());

    let reconfigured = context("2", vec![capability("system.service_accounts", true, "{\"a\":1}")]);
    let diff = product_change_diff(&on, &reconfigured);
    assert_eq!(diff.capability_changes.len(), 1);
    assert_eq!(diff.capability_changes[0].capability_code, "system.service_accounts");
    assert_eq!(diff.warnings, vec!["authorization_and_navigation_will_refresh".to_string()]);
}

#[test]
fn product_change_plan_hash() {
    let overrides = vec![CapabilityOverrideInput {
        capability_code: "system.service_accounts".into(),
        enabled: true,
        variant_code: "default".into(),
        schema_version: 1,
        config: "{}".into(),
    }];
    assert_eq!(
        product_change_hash("t1", 42, &overrides, "7").unwrap(),
        "e62b1e09d16ff66b18cf376dd21601eb8897b586a04c71297f22ff6abe10e186"
    );
    assert_eq!(
        product_change_hash("t", -5, &[], "e\"q").unwrap(),
        "5901ca0cd2dbae64b2817e0af4f0d321ddb9b2c24e4b7a5b599ec36f9cefd372"
    );
}

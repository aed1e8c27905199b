use ryframe_service::upload::{
    cleanup_grace_for_bound, plan_compensation, plan_expired_reservation, CompensationPlan,
    ExpiredReservationPlan, SysFile, DEL_FLAG_NORMAL, UPLOAD_STATUS_CLEANUP, UPLOAD_STATUS_PENDING,
};

fn reservation(status: &str, expires_at: Option<i64>) -> SysFile {
    let now = chrono::Utc::now().timestamp_millis();
    SysFile {
        id: 1,
        tenant_id: "system".into(),
        original_name: "原始文件.txt".into(),
        storage_name: "opaque.txt".into(),
        storage_path: "system/opaque.txt".into(),
        bucket: "uploads".into(),
        file_url: "uploads/system/opaque.txt".into(),
        file_size: 1,
        content_type: "text/plain".into(),
        file_sha256: "a".repeat(64),
        upload_by: None,
        upload_status: status.into(),
        reservation_token: Some("owner".into()),
        reservation_expires_at: expires_at,
        del_flag: DEL_FLAG_NORMAL.into(),
        created_at: now,
        updated_at: now,
    }
}

#[test]
fn failure_compensation_deletes_object_only_for_owned_reservation() {
    assert_eq!(plan_compensation(true), CompensationPlan::DeleteOwnedObject);
    assert_eq!(plan_compensation(false), CompensationPlan::PreserveObject);
}

#[test]
fn expired_cleanup_plan_is_idempotent_and_preserves_two_phase_grace_period() {
    let now = chrono::Utc::now().timestamp_millis();
    let grace = cleanup_grace_for_bound(600);
    assert_eq!(grace, 1_200);
    assert_eq!(cleanup_grace_for_bound(30), 300);

    let mut reservation = reservation(UPLOAD_STATUS_PENDING, Some(now - 1_000));
    let expected = ExpiredReservationPlan::BeginCleanup {
        cleanup_after: now + grace * 1_000,
    };
    assert_eq!(
        plan_expired_reservation(&reservation, now, grace),
        Some(expected)
    );
    assert_eq!(
        plan_expired_reservation(&reservation, now, grace),
        Some(expected),
        "同一过期 pending 记录重复规划必须得到相同墓碑截止时间"
    );

    reservation.upload_status = UPLOAD_STATUS_CLEANUP.to_owned();
    reservation.reservation_expires_at = Some(now + grace * 1_000);
    assert_eq!(plan_expired_reservation(&reservation, now, grace), None);
    assert_eq!(
        plan_expired_reservation(&reservation, now + grace * 1_000, grace),
        Some(ExpiredReservationPlan::DeleteCleanup)
    );
    assert_eq!(
        plan_expired_reservation(&reservation, now + grace * 1_000, grace),
        Some(ExpiredReservationPlan::DeleteCleanup),
        "到期 cleanup 记录重复规划仍应执行幂等对象删除"
    );
}

#[test]
fn deleted_or_unexpired_reservations_are_left_alone() {
    let mut r = reservation(UPLOAD_STATUS_PENDING, Some(10_000));
    assert_eq!(plan_expired_reservation(&r, 9_999, 300), None);
    assert_eq!(plan_expired_reservation(&r, 10_000, 300), Some(ExpiredReservationPlan::BeginCleanup { cleanup_after: 310_000 }));
    r.del_flag = "2".into();
    assert_eq!(plan_expired_reservation(&r, 20_000, 300), None);
    let ready = reservation("ready", Some(0));
    assert_eq!(plan_expired_reservation(&ready, 20_000, 300), None);
    let no_expiry = reservation(UPLOAD_STATUS_PENDING, None);
    assert_eq!(plan_expired_reservation(&no_expiry, 20_000, 300), None);
}

#[test]
fn cleanup_grace_saturates_and_keeps_minimum() {
    assert_eq!(cleanup_grace_for_bound(0), 300);
    assert_eq!(cleanup_grace_for_bound(150), 300);
    assert_eq!(cleanup_grace_for_bound(151), 302);
}

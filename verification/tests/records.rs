use ryframe_service::error::AppError;
use ryframe_service::notice::{new_notice_record, notice_vo, require_notice, updated_notice};
use ryframe_service::post::{check_post_code_free, new_post_record, post_vo, require_post, updated_post};
use ryframe_service::retention::{
    batch_continues, config_file_cleanup_after, next_batch_limit, package_detachable, snapshot_detachable,
};
use ryframe_service::service_account::{
    check_target_count, delegation_fingerprint, delegation_targets, ServiceAccountSummary, ServiceCapabilityDescriptor,
};
use ryframe_service::transfer::execute::record_applied;
use ryframe_service::transfer::lifecycle::{new_transfer_state, TransferStatus};

#[test]
fn posts_are_created_and_shown() {
    let post = new_post_record(9007199254740993, "t1", "Engineer", "ENG", 3, 77);
    assert_eq!(post.status, "1");
    assert_eq!(post.del_flag, "0");
    assert_eq!(post.created_at, 77);
    assert_eq!(check_post_code_free(false), Ok(()));
    assert_eq!(check_post_code_free(true), Err(AppError::Conflict("岗位编码已存在".into())));
    let post = updated_post(post, "Senior", 4, "0".into(), 80);
    assert_eq!((post.name.as_str(), post.sort, post.status.as_str(), post.updated_at, post.created_at), ("Senior", 4, "0", 80, 77));
    let vo = post_vo(require_post(Some(post)).unwrap());
    assert_eq!(vo.id, "9007199254740993");
    assert_eq!(vo.code, "ENG");
    assert_eq!(require_post(None).err(), Some(AppError::NotFound("岗位不存在".into())));
}

#[test]
fn notices_are_created_and_shown() {
    let notice = new_notice_record(5, "t1", "Title", "**body**", Some("1"), 42, 10);
    assert_eq!(notice.status, "0");
    assert_eq!(notice.created_by, Some(42));
    let notice = updated_notice(notice, "New", "text", None, "1".into(), 11);
    assert_eq!((notice.title.as_str(), notice.content.as_str(), notice.notice_type.clone(), notice.status.as_str()), ("New", "text", None, "1"));
    let vo = notice_vo(require_notice(Some(notice)).unwrap());
    assert_eq!(vo.id, "5");
    assert_eq!(vo.created_by.as_deref(), Some("42"));
    assert_eq!(vo.content_markdown, "text");
    assert!(matches!(require_notice(None), Err(AppError::NotFound(_))));
}

#[test]
fn retention_batches_and_detachable_artifacts() {
    assert_eq!(next_batch_limit(0, 1000, 200), 200);
    assert_eq!(next_batch_limit(900, 1000, 200), 100);
    assert_eq!(next_batch_limit(1000, 1000, 200), 0);
    assert!(batch_continues(200, 200));
    assert!(!batch_continues(150, 200));
    assert!(!batch_continues(0, 0));
    assert!(package_detachable("succeeded", Some(3), Some(100), 100, &["applied".to_string()]));
    assert!(!package_detachable("succeeded", Some(3), Some(100), 100, &["previewing".to_string()]));
    assert!(!package_detachable("running", Some(3), Some(100), 100, &[]));
    assert!(!package_detachable("failed", None, Some(100), 100, &[]));
    assert!(!package_detachable("expired", Some(3), Some(101), 100, &[]));
    assert_eq!(config_file_cleanup_after(1_000), 901_000);

    let applied = record_applied(new_transfer_state(1, 1, 1, 0), 77, 2, 2, 1_000, 1);
    assert!(!snapshot_detachable(&applied, 1_000 + 3_599_999));
    assert!(snapshot_detachable(&applied, 1_000 + 3_600_000));
    let mut rolling = applied;
    rolling.status = TransferStatus::RollingBack;
    assert!(!snapshot_detachable(&rolling, 1_000 + 3_600_000));
}

fn capability(key: &str, delegated: bool) -> ServiceCapabilityDescriptor {
    ServiceCapabilityDescriptor { key: key.into(), permission: format!("{key}:use"), direct: true, delegated }
}

#[test]
fn delegation_targets_and_fingerprints() {
    assert_eq!(check_target_count(1000), Ok(()));
    assert!(matches!(check_target_count(1001), Err(AppError::Validation(_))));
    let caps = vec![capability("a", true), capability("b", true), capability("c", false)];
    let accounts = vec![
        ServiceAccountSummary { id: 1, code: "bot-a".into(), name: "A".into() },
        ServiceAccountSummary { id: 2, code: "bot-b".into(), name: "B".into() },
    ];
    let targets = delegation_targets(&caps, &[true, true, true], accounts, &[vec![false, true, true], vec![false, false, true]]);
    assert_eq!(targets.len(), 1);
    assert_eq!(targets[0].account_id, "1");
    assert_eq!(targets[0].code, "bot-a");
    assert_eq!(targets[0].capabilities.len(), 1);
    assert_eq!(targets[0].capabilities[0].key, "b");

    let fingerprint = delegation_fingerprint(42, &["a:list".to_string(), "b:edit".to_string()], "", "原因");
    let hex: String = fingerprint.iter().map(|b| format!("{b:02x}")).collect();
    assert_eq!(hex, "b8cd7813f3c8648fe35ad3beaaa3e1a0cfc1755079555ca4213c42e07320f93c");
}

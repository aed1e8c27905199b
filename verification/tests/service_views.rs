use ryframe_service::error::AppError;
use ryframe_service::service_account::{credential_fingerprint, delegation_fingerprint};
use ryframe_service::service_views::{
    replay_credential, replay_delegation,
    delegation_vo_with_keys, delegations_with_capabilities, service_access_audit_vo, service_account_detail_vo,
    service_account_vo, service_credential_vo, ServiceAccessAuditRecord, ServiceAccountRecord,
    ServiceCredentialRecord, ServiceDelegationRecord,
};

fn account() -> ServiceAccountRecord {
    ServiceAccountRecord {
        id: 1234567890123,
        tenant_id: "t1".into(),
        code: "erp".into(),
        name: "ERP".into(),
        description: None,
        dept_id: Some(-7),
        status: "0".into(),
        authorization_version: 3,
        max_requests_per_minute: 60,
        created_at: 1000,
        updated_at: 2000,
    }
}

fn delegation(id: i64) -> ServiceDelegationRecord {
    ServiceDelegationRecord {
        id,
        tenant_id: "t1".into(),
        account_id: 5,
        user_id: 9,
        status: "active".into(),
        version: 1,
        not_before: 10,
        expires_at: 20,
        reason: "sync".into(),
        revoked_at: None,
        created_at: 5,
    }
}

#[test]
fn account_views_render_ids_in_decimal() {
    let vo = service_account_vo(account());
    assert_eq!(vo.id, "1234567890123");
    assert_eq!(vo.dept_id.as_deref(), Some("-7"));
    assert_eq!(vo.code, "erp");
    assert_eq!(vo.max_requests_per_minute, 60);
    let detail = service_account_detail_vo(account(), &[3, 40]);
    assert_eq!(detail.account.id, "1234567890123");
    assert_eq!(detail.role_ids, vec!["3".to_string(), "40".to_string()]);
}

#[test]
fn credential_key_id_carries_the_public_prefix() {
    let vo = service_credential_vo(ServiceCredentialRecord {
        id: 11,
        account_id: 12,
        key_id: "abc".into(),
        label: "ci".into(),
        status: "active".into(),
        expires_at: 99,
        last_used_at: Some(50),
        revoked_at: None,
        created_at: 1,
    });
    assert_eq!(vo.key_id, "rfk_abc");
    assert_eq!(vo.id, "11");
    assert_eq!(vo.account_id, "12");
    assert_eq!(vo.last_used_at, Some(50));
}

#[test]
fn audit_view_keeps_everything_but_ids() {
    let vo = service_access_audit_vo(ServiceAccessAuditRecord {
        id: 1,
        request_id: "req".into(),
        tenant_id: Some("t1".into()),
        account_id: Some(2),
        credential_id: None,
        delegation_id: Some(4),
        represented_user_id: Some(5),
        operation_id: "op".into(),
        capability_key: "cap".into(),
        required_permission: "sys:x".into(),
        access_mode: "read".into(),
        result: "allowed".into(),
        reason_code: "ok".into(),
        http_status: 200,
        row_count: Some(3),
        response_bytes: Some(120),
        tenant_epoch: Some(1),
        account_authorization_version: Some(2),
        user_authorization_version: None,
        delegation_version: Some(4),
        started_at: 7,
        completed_at: 8,
    });
    assert_eq!(vo.id, "1");
    assert_eq!(vo.account_id.as_deref(), Some("2"));
    assert_eq!(vo.credential_id, None);
    assert_eq!(vo.delegation_id.as_deref(), Some("4"));
    assert_eq!(vo.represented_user_id.as_deref(), Some("5"));
    assert_eq!(vo.http_status, 200);
    assert_eq!(vo.response_bytes, Some(120));
}

#[test]
fn delegations_get_their_capability_keys_in_order() {
    let caps = vec![
        (2, "b".to_string()),
        (1, "x".to_string()),
        (2, "a".to_string()),
        (3, "z".to_string()),
    ];
    let out = delegations_with_capabilities(vec![delegation(2), delegation(1), delegation(4), delegation(2)], &caps);
    assert_eq!(out.len(), 4);
    assert_eq!(out[0].id, "2");
    assert_eq!(out[0].capability_keys, vec!["b".to_string(), "a".to_string()]);
    assert_eq!(out[1].capability_keys, vec!["x".to_string()]);
    assert!(out[2].capability_keys.is_empty());
    assert!(out[3].capability_keys.is_empty());
    assert!(delegations_with_capabilities(Vec::new(), &caps).is_empty());
    let single = delegation_vo_with_keys(delegation(8), vec!["k".into()]);
    assert_eq!(single.user_id, "9");
    assert_eq!(single.account_id, "5");
    assert_eq!(single.capability_keys, vec!["k".to_string()]);
}

fn credential(id: i64) -> ServiceCredentialRecord {
    ServiceCredentialRecord {
        id,
        account_id: 12,
        key_id: "abc".into(),
        label: "ci".into(),
        status: "active".into(),
        expires_at: 99,
        last_used_at: None,
        revoked_at: None,
        created_at: 1,
    }
}

#[test]
fn replayed_credential_request_returns_the_stored_key_without_secret() {
    let stored = credential_fingerprint("ci", "2030-01-01T00:00:00+00:00");
    let same = credential_fingerprint("ci", "2030-01-01T00:00:00+00:00");
    let v = replay_credential(credential(11), &stored, &same).ok().unwrap();
    assert!(v.secret.is_none());
    assert_eq!(v.credential.id, "11");
    assert_eq!(v.credential.key_id, "rfk_abc");
    let other = credential_fingerprint("cd", "2030-01-01T00:00:00+00:00");
    assert!(matches!(replay_credential(credential(11), &stored, &other), Err(AppError::Conflict(_))));
    let moved = credential_fingerprint("c", "i2030-01-01T00:00:00+00:00");
    assert_ne!(stored, moved);
}

#[test]
fn replayed_delegation_request_returns_the_stored_delegation_without_token() {
    let keys = vec!["a".to_string(), "b".to_string()];
    let stored = delegation_fingerprint(5, &keys, "", "sync");
    let same = delegation_fingerprint(5, &keys, "", "sync");
    let v = replay_delegation(delegation(8), keys.clone(), &stored, &same).ok().unwrap();
    assert!(v.token.is_none());
    assert_eq!(v.delegation.id, "8");
    assert_eq!(v.delegation.capability_keys, keys);
    let other = delegation_fingerprint(5, &keys, "", "other");
    assert!(matches!(replay_delegation(delegation(8), keys.clone(), &stored, &other), Err(AppError::Conflict(_))));
    assert_ne!(stored, delegation_fingerprint(6, &keys, "", "sync"));
}

use ryframe_service::error::AppError;
use ryframe_service::service_account::{
    ensure_enabled, ensure_same_fingerprint, optional_text, required_text, validate_account_status,
    validate_code, validate_idempotency_key, validate_rate_limit,
};

#[test]
fn codes_are_trimmed_lowered_and_restricted() {
    assert_eq!(validate_code("  Agent-01_x ".into()).unwrap(), "agent-01_x");
    assert!(matches!(validate_code("agent one".into()), Err(AppError::Validation(_))));
    assert!(matches!(validate_code("   ".into()), Err(AppError::Validation(_))));
    assert!(validate_code("a".repeat(64)).is_ok());
    assert!(matches!(validate_code("a".repeat(65)), Err(AppError::Validation(_))));
}

#[test]
fn texts_and_limits() {
    assert_eq!(required_text("  name ".into(), "名称", 10).unwrap(), "name");
    assert_eq!(
        required_text("   ".into(), "名称", 10),
        Err(AppError::Validation("名称不能为空且不能超过 10 个字符".into()))
    );
    assert!(required_text("中文字符".into(), "名称", 4).is_ok());
    assert!(required_text("中文字符".into(), "名称", 3).is_err());
    assert_eq!(optional_text(None, 5).unwrap(), None);
    assert_eq!(optional_text(Some(" x ".into()), 5).unwrap(), Some("x".to_string()));
    assert!(validate_rate_limit(1).is_ok());
    assert!(validate_rate_limit(10_000).is_ok());
    assert!(validate_rate_limit(0).is_err());
    assert!(validate_rate_limit(10_001).is_err());
}

#[test]
fn idempotency_keys_statuses_and_fingerprints() {
    assert_eq!(validate_idempotency_key("  abcdefghijklmnop ".into()).unwrap(), "abcdefghijklmnop");
    assert!(validate_idempotency_key("short".into()).is_err());
    assert!(validate_idempotency_key("abcdefgh ijklmnop".into()).is_err());
    assert!(validate_account_status("0").is_ok());
    assert!(validate_account_status("1").is_ok());
    assert!(validate_account_status("2").is_err());
    assert!(ensure_same_fingerprint(&[1, 2, 3], &[1, 2, 3]).is_ok());
    assert!(matches!(ensure_same_fingerprint(&[1, 2, 3], &[1, 2, 4]), Err(AppError::Conflict(_))));
    assert!(matches!(ensure_enabled(false), Err(AppError::ServiceUnavailable(_))));
}

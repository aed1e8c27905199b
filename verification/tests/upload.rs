use ryframe_service::error::AppError;
use ryframe_service::upload::{
    cleanup_follow_up, CleanupFollowUp,
    check_download_path, check_upload_size, file_url, janitor_step, map_storage_read_error,
    map_storage_write_error, object_key, reservation_expires_at, storage_error_is_not_found,
    stored_file_size, StorageError,
};

#[test]
fn size_and_path_checks() {
    assert!(check_upload_size(10, 10).is_ok());
    assert_eq!(
        check_upload_size(5 * 1024 * 1024 + 1, 5 * 1024 * 1024),
        Err(AppError::PayloadTooLarge("文件大小超过限制（最大 5 MB）".into()))
    );
    assert!(check_download_path("system/2024/01/01/a.png").is_ok());
    assert!(matches!(check_download_path("system/../secret"), Err(AppError::Validation(_))));
    assert_eq!(stored_file_size(42), Ok(42));
}

#[test]
fn object_keys_and_urls() {
    assert_eq!(object_key("t1", "2024/05/06", "abc.png"), "t1/2024/05/06/abc.png");
    assert_eq!(file_url("uploads", "t1/x.png"), "uploads/t1/x.png");
    assert_eq!(reservation_expires_at(1_000), 301_000);
}

#[test]
fn storage_errors_are_mapped() {
    assert!(storage_error_is_not_found(&StorageError::Service { status: 404, message: String::new() }));
    assert!(storage_error_is_not_found(&StorageError::Io { not_found: true, message: String::new() }));
    assert!(!storage_error_is_not_found(&StorageError::Transport(String::new())));
    assert!(matches!(map_storage_read_error(StorageError::Service { status: 404, message: String::new() }), AppError::NotFound(_)));
    assert!(matches!(map_storage_read_error(StorageError::Service { status: 503, message: String::new() }), AppError::ServiceUnavailable(_)));
    assert!(matches!(map_storage_read_error(StorageError::Service { status: 403, message: String::new() }), AppError::Internal(_)));
    assert!(matches!(map_storage_write_error(StorageError::Service { status: 429, message: String::new() }), AppError::ServiceUnavailable(_)));
    assert!(matches!(map_storage_write_error(StorageError::Service { status: 404, message: String::new() }), AppError::Internal(_)));
    assert!(matches!(map_storage_write_error(StorageError::InvalidLocation(String::new())), AppError::Validation(_)));
    assert!(matches!(map_storage_write_error(StorageError::Signing(String::new())), AppError::Internal(_)));
    assert!(matches!(map_storage_write_error(StorageError::Readiness(String::new())), AppError::ServiceUnavailable(_)));
}

#[test]
fn janitor_backoff_doubles_up_to_five_minutes() {
    assert_eq!(janitor_step(true, 80), (60, 5));
    assert_eq!(janitor_step(false, 5), (5, 10));
    assert_eq!(janitor_step(false, 160), (160, 300));
    assert_eq!(janitor_step(false, 300), (300, 300));
}

#[test]
fn failed_object_delete_is_retried_a_minute_later() {
    assert_eq!(cleanup_follow_up(true, 1_000), CleanupFollowUp::DeleteRow);
    assert_eq!(cleanup_follow_up(false, 1_000), CleanupFollowUp::RetryAt(61_000));
}

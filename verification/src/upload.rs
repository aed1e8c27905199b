//! Uploads and downloads: size and path checks, storage error mapping, and the two-phase
//! cleanup of upload reservations.
use vstd::prelude::*;

use crate::crypto::{hex_seq, sha256, sha256_hex};
use crate::error::{AppError, AppResult};
use crate::text::{contains_seq, contains_str, decimal, owned, push_decimal, push_signed_decimal, push_str, signed_decimal, str_eq};

verus! {

/// Default bucket of uploads.
pub const UPLOAD_BUCKET: &'static str = "uploads";

/// Bucket of avatars.
pub const AVATAR_BUCKET: &'static str = "avatar";

pub const UPLOAD_STATUS_PENDING: &'static str = "pending";
pub const UPLOAD_STATUS_CLEANUP: &'static str = "cleanup";
pub const UPLOAD_STATUS_READY: &'static str = "ready";
pub const DEL_FLAG_NORMAL: &'static str = "0";

/// How long a reservation stays pending before the janitor may claim it, in milliseconds.
pub const RESERVATION_TTL_MILLIS: i64 = 300_000;
/// The shortest grace, in seconds, between marking a reservation for cleanup and deleting.
pub const MIN_CLEANUP_GRACE_SECONDS: i64 = 300;
pub const JANITOR_SUCCESS_INTERVAL_SECONDS: u64 = 60;
pub const JANITOR_INITIAL_ERROR_BACKOFF_SECONDS: u64 = 5;
pub const JANITOR_MAX_ERROR_BACKOFF_SECONDS: u64 = 300;

/// Metadata returned for an upload.
pub struct UploadResponse {
    pub file_id: String,
    pub bucket: String,
    pub file_name: String,
    pub file_path: String,
}

/// A downloaded object with its stored name and content type.
pub struct DownloadedFile {
    pub data: Vec<u8>,
    pub original_name: String,
    pub content_type: String,
}

/// Where a finished export can be downloaded from.
pub struct ExportDownloadLocation {
    pub bucket: String,
    pub path: String,
}

/// A stored file's metadata. Times are Unix milliseconds.
pub struct SysFile {
    pub id: i64,
    pub tenant_id: String,
    pub original_name: String,
    pub storage_name: String,
    pub storage_path: String,
    pub bucket: String,
    pub file_url: String,
    pub file_size: i64,
    pub content_type: String,
    pub file_sha256: String,
    pub upload_by: Option<String>,
    pub upload_status: String,
    pub reservation_token: Option<String>,
    pub reservation_expires_at: Option<i64>,
    pub del_flag: String,
    pub created_at: i64,
    pub updated_at: i64,
}

/// How an object-storage call failed.
pub enum StorageError {
    InvalidLocation(String),
    Configuration(String),
    Signing(String),
    Service { status: u16, message: String },
    Transport(String),
    /// A local I/O failure; `not_found` when its kind is `NotFound`.
    Io { not_found: bool, message: String },
    Readiness(String),
}

pub open spec fn storage_unavailable_status(status: u16) -> bool {
    status == 429 || status >= 500
}

/// The error a failed write is reported as.
pub fn map_storage_write_error(error: StorageError) -> (r: AppError)
    ensures
        match error {
            StorageError::InvalidLocation(_) => r is Validation,
            StorageError::Configuration(_) | StorageError::Signing(_) => r is Internal,
            StorageError::Service { status, .. } => if storage_unavailable_status(status) {
                r is ServiceUnavailable
            } else {
                r is Internal
            },
            _ => r is ServiceUnavailable,
        },
{
    match error {
        StorageError::InvalidLocation(_) => AppError::Validation(owned("非法的对象存储路径")),
        StorageError::Configuration(_) | StorageError::Signing(_) => AppError::Internal(owned("对象存储配置错误")),
        StorageError::Service { status, .. } => {
            if status == 429 || status >= 500 {
                AppError::ServiceUnavailable(owned("对象存储暂不可用"))
            } else {
                AppError::Internal(owned("对象存储拒绝写入请求"))
            }
        },
        _ => AppError::ServiceUnavailable(owned("对象存储暂不可用")),
    }
}

/// Whether a storage failure means the object does not exist.
pub open spec fn spec_storage_not_found(error: StorageError) -> bool {
    match error {
        StorageError::Service { status, .. } => status == 404,
        StorageError::Io { not_found, .. } => not_found,
        _ => false,
    }
}

pub fn storage_error_is_not_found(error: &StorageError) -> (r: bool)
    ensures
        r == spec_storage_not_found(*error),
{
    match error {
        StorageError::Service { status, .. } => *status == 404,
        StorageError::Io { not_found, .. } => *not_found,
        _ => false,
    }
}

/// The error a failed read is reported as: a missing object is `NotFound`.
pub fn map_storage_read_error(error: StorageError) -> (r: AppError)
    ensures
        spec_storage_not_found(error) ==> r is NotFound,
        !spec_storage_not_found(error) ==> match error {
            StorageError::InvalidLocation(_) => r is Validation,
            StorageError::Configuration(_) | StorageError::Signing(_) => r is Internal,
            StorageError::Service { status, .. } => if storage_unavailable_status(status) {
                r is ServiceUnavailable
            } else {
                r is Internal
            },
            _ => r is ServiceUnavailable,
        },
{
    if storage_error_is_not_found(&error) {
        return AppError::NotFound(owned("文件不存在"));
    }
    match error {
        StorageError::InvalidLocation(_) => AppError::Validation(owned("非法的对象存储路径")),
        StorageError::Configuration(_) | StorageError::Signing(_) => AppError::Internal(owned("对象存储配置错误")),
        StorageError::Service { status, .. } => {
            if status == 429 || status >= 500 {
                AppError::ServiceUnavailable(owned("对象存储暂不可用"))
            } else {
                AppError::Internal(owned("对象存储拒绝读取请求"))
            }
        },
        _ => AppError::ServiceUnavailable(owned("对象存储暂不可用")),
    }
}

/// An upload larger than `max_file_size` bytes is refused as too large; the message gives the
/// limit in whole mebibytes.
pub fn check_upload_size(size: u64, max_file_size: u64) -> (r: AppResult<()>)
    ensures
        r is Ok <==> size <= max_file_size,
        r matches Err(e) ==> e is PayloadTooLarge && e.spec_message() == "文件大小超过限制（最大 "@ + decimal(
            (max_file_size / 1024 / 1024) as nat,
        ) + " MB）"@,
{
    if size > max_file_size {
        let mut msg = owned("文件大小超过限制（最大 ");
        push_decimal(&mut msg, max_file_size / 1024 / 1024);
        push_str(&mut msg, " MB）");
        return Err(AppError::PayloadTooLarge(msg));
    }
    Ok(())
}

/// A download path may not climb out of its bucket: it must not contain `..`.
pub fn check_download_path(path: &str) -> (r: AppResult<()>)
    ensures
        r is Ok <==> !contains_seq(path@, ".."@),
        r is Err ==> r->Err_0 is Validation,
{
    if contains_str(path, "..") {
        return Err(AppError::Validation(owned("非法的文件路径")));
    }
    Ok(())
}

pub open spec fn spec_object_key(tenant_id: Seq<char>, date_prefix: Seq<char>, storage_name: Seq<char>) -> Seq<char> {
    tenant_id + "/"@ + date_prefix + "/"@ + storage_name
}

/// Object key of a new upload: `{tenant}/{yyyy/mm/dd}/{storage name}`.
pub fn object_key(tenant_id: &str, date_prefix: &str, storage_name: &str) -> (r: String)
    ensures
        r@ == spec_object_key(tenant_id@, date_prefix@, storage_name@),
{
    let mut r = owned(tenant_id);
    push_str(&mut r, "/");
    push_str(&mut r, date_prefix);
    push_str(&mut r, "/");
    push_str(&mut r, storage_name);
    r
}

/// Public URL path of an object: `{bucket}/{object key}`.
pub fn file_url(bucket: &str, object_key: &str) -> (r: String)
    ensures
        r@ == bucket@ + "/"@ + object_key@,
{
    let mut r = owned(bucket);
    push_str(&mut r, "/");
    push_str(&mut r, object_key);
    r
}

/// The stored size column: a length that does not fit in `i64` is refused as too large.
pub fn stored_file_size(len: usize) -> (r: AppResult<i64>)
    ensures
        r is Ok <==> len <= i64::MAX,
        r matches Ok(n) ==> n == len,
        r is Err ==> r->Err_0 is PayloadTooLarge,
{
    if len as u64 > 9223372036854775807u64 {
        return Err(AppError::PayloadTooLarge(owned("文件大小超出数据库范围")));
    }
    Ok(len as i64)
}

/// The response for a file that already exists: its id in decimal, bucket, stored name and path.
pub fn upload_response_for_existing(existing: SysFile) -> (r: UploadResponse)
    ensures
        r.file_id@ == signed_decimal(existing.id as int),
        r.bucket == existing.bucket,
        r.file_name == existing.original_name,
        r.file_path == existing.storage_path,
{
    let mut id = String::new();
    push_signed_decimal(&mut id, existing.id);
    assert(id@ =~= signed_decimal(existing.id as int));
    UploadResponse {
        file_id: id,
        bucket: existing.bucket,
        file_name: existing.original_name,
        file_path: existing.storage_path,
    }
}

/// The download answer: the object's bytes with the stored original name and content type
/// (never the opaque object key).
pub fn downloaded_file(data: Vec<u8>, file: SysFile) -> (r: DownloadedFile)
    ensures
        r.data == data,
        r.original_name == file.original_name,
        r.content_type == file.content_type,
{
    DownloadedFile { data, original_name: file.original_name, content_type: file.content_type }
}

// ---------------------------------------------------------------------------
// Reservations
// ---------------------------------------------------------------------------
/// When a reservation made at `now` expires (five minutes later).
pub fn reservation_expires_at(now: i64) -> (r: i64)
    requires
        now + RESERVATION_TTL_MILLIS <= i64::MAX,
    ensures
        r == now + RESERVATION_TTL_MILLIS,
{
    now + RESERVATION_TTL_MILLIS
}

/// The late-completion bound as whole seconds in `i64` (half of `i64::MAX` when it does not fit).
pub open spec fn bound_seconds(bound_secs: u64) -> int {
    if bound_secs <= i64::MAX {
        bound_secs as int
    } else {
        i64::MAX / 2
    }
}

/// The grace in seconds: twice the late-completion bound (saturating), at least five minutes.
pub open spec fn spec_cleanup_grace(bound_secs: u64) -> int {
    let doubled = if 2 * bound_seconds(bound_secs) <= i64::MAX {
        2 * bound_seconds(bound_secs)
    } else {
        i64::MAX as int
    };
    if doubled < MIN_CLEANUP_GRACE_SECONDS {
        MIN_CLEANUP_GRACE_SECONDS as int
    } else {
        doubled
    }
}

/// Seconds between claiming an expired reservation for cleanup and deleting its object, so
/// that a late write that was already under way has landed.
pub fn cleanup_grace_for_bound(bound_secs: u64) -> (r: i64)
    requires
        spec_cleanup_grace(bound_secs) <= i64::MAX / 1000,
    ensures
        r == spec_cleanup_grace(bound_secs),
{
    let secs: i64 = if bound_secs <= 9223372036854775807u64 {
        bound_secs as i64
    } else {
        4611686018427387903i64
    };
    let doubled: i64 = if secs <= 4611686018427387903i64 {
        secs * 2
    } else {
        9223372036854775807i64
    };
    if doubled < MIN_CLEANUP_GRACE_SECONDS {
        MIN_CLEANUP_GRACE_SECONDS
    } else {
        doubled
    }
}

/// Where an upload stands once its content hash was looked up under the tenant's lock.
pub enum ReservationOutcome {
    /// The same content is already stored and ready.
    Ready(SysFile),
    /// Another upload of the same content holds a reservation.
    InProgress(SysFile),
    /// This upload holds the reservation.
    Reserved(SysFile),
}

/// A file found with the upload's content hash: ready files are reused, any other is an upload
/// in progress.
pub fn existing_reservation_outcome(existing: SysFile) -> (r: ReservationOutcome)
    ensures
        existing.upload_status@ == UPLOAD_STATUS_READY@ ==> r == ReservationOutcome::Ready(existing),
        existing.upload_status@ != UPLOAD_STATUS_READY@ ==> r == ReservationOutcome::InProgress(existing),
{
    if str_eq(existing.upload_status.as_str(), UPLOAD_STATUS_READY) {
        ReservationOutcome::Ready(existing)
    } else {
        ReservationOutcome::InProgress(existing)
    }
}

pub open spec fn opt_text(o: Option<String>) -> Option<Seq<char>> {
    match o {
        Some(s) => Some(s@),
        None => None,
    }
}

/// When the commit of a reservation was not acknowledged, the file read back decides: still
/// pending with this upload's token, the reservation is ours; ready, the content is stored;
/// anything else (or nothing) leaves the outcome unknown.
pub fn confirm_reservation_commit(saved_token: &Option<String>, confirmed: Option<SysFile>) -> (r: AppResult<
    ReservationOutcome,
>)
    ensures
        match confirmed {
            Some(c) => if opt_text(c.reservation_token) == opt_text(*saved_token) && c.upload_status@
                == UPLOAD_STATUS_PENDING@ {
                r == Ok::<ReservationOutcome, AppError>(ReservationOutcome::Reserved(c))
            } else if c.upload_status@ == UPLOAD_STATUS_READY@ {
                r == Ok::<ReservationOutcome, AppError>(ReservationOutcome::Ready(c))
            } else {
                r is Err && r->Err_0 is Database
            },
            None => r is Err && r->Err_0 is Database,
        },
{
    match confirmed {
        Some(c) => {
            let same_token = match (&c.reservation_token, saved_token) {
                (Some(x), Some(y)) => str_eq(x.as_str(), y.as_str()),
                (None, None) => true,
                _ => false,
            };
            if same_token && str_eq(c.upload_status.as_str(), UPLOAD_STATUS_PENDING) {
                Ok(ReservationOutcome::Reserved(c))
            } else if str_eq(c.upload_status.as_str(), UPLOAD_STATUS_READY) {
                Ok(ReservationOutcome::Ready(c))
            } else {
                Err(AppError::Database(owned("文件预留提交结果未知")))
            }
        },
        None => Err(AppError::Database(owned("文件预留提交结果未知"))),
    }
}

/// An upload in progress can be taken over only while it is pending with an ownership token;
/// the result is that token.
pub fn recovery_token(existing: &SysFile) -> (r: AppResult<String>)
    ensures
        existing.upload_status@ == UPLOAD_STATUS_CLEANUP@ ==> r is Err && r->Err_0 is Conflict,
        existing.upload_status@ != UPLOAD_STATUS_CLEANUP@ && existing.upload_status@ != UPLOAD_STATUS_PENDING@
            ==> r is Err && r->Err_0 is Internal,
        existing.upload_status@ == UPLOAD_STATUS_PENDING@ ==> match existing.reservation_token {
            Some(t) => r matches Ok(x) && x@ == t@,
            None => r is Err && r->Err_0 is Internal,
        },
{
    proof {
        reveal_strlit("pending");
        reveal_strlit("cleanup");
        assert(UPLOAD_STATUS_PENDING@[0] != UPLOAD_STATUS_CLEANUP@[0]);
    }
    if str_eq(existing.upload_status.as_str(), UPLOAD_STATUS_CLEANUP) {
        return Err(AppError::Conflict(owned("相同文件正在执行失败补偿，请稍后重试")));
    }
    if !str_eq(existing.upload_status.as_str(), UPLOAD_STATUS_PENDING) {
        return Err(AppError::Internal(owned("文件上传预留状态无效")));
    }
    match &existing.reservation_token {
        Some(t) => Ok(owned(t.as_str())),
        None => Err(AppError::Internal(owned("文件上传预留缺少所有权令牌"))),
    }
}

/// A stored size read as unsigned, negative sizes as zero.
pub open spec fn unsigned_size(size: i64) -> int {
    if size < 0 {
        0
    } else {
        size as int
    }
}

/// The object of a pending upload is taken over only when its bytes hash to the expected
/// digest, which is also the one recorded, and have the recorded size.
pub fn verify_pending_object(existing: &SysFile, expected_sha256: &str, object: &[u8]) -> (r: AppResult<()>)
    ensures
        r is Ok <==> hex_seq(sha256(object@)) == expected_sha256@ && existing.file_sha256@ == hex_seq(sha256(object@))
            && unsigned_size(existing.file_size) == object@.len(),
        r is Err ==> r->Err_0 is Conflict,
{
    let actual = sha256_hex(object);
    let stored_size: u64 = if existing.file_size < 0 {
        0
    } else {
        existing.file_size as u64
    };
    if !str_eq(actual.as_str(), expected_sha256) || !str_eq(existing.file_sha256.as_str(), actual.as_str())
        || stored_size != object.len() as u64 {
        return Err(AppError::Conflict(owned("相同文件正在上传，请稍后重试")));
    }
    Ok(())
}

/// A pending upload once its object was confirmed: ready, live, and no longer reserved.
pub fn mark_recovered(existing: SysFile) -> (r: SysFile)
    ensures
        r == (SysFile {
            upload_status: r.upload_status,
            reservation_token: None,
            reservation_expires_at: None,
            del_flag: r.del_flag,
            ..existing
        }),
        r.upload_status@ == UPLOAD_STATUS_READY@,
        r.del_flag@ == DEL_FLAG_NORMAL@,
{
    SysFile {
        upload_status: owned(UPLOAD_STATUS_READY),
        reservation_token: None,
        reservation_expires_at: None,
        del_flag: owned(DEL_FLAG_NORMAL),
        ..existing
    }
}

/// An upload's payload after the optional image compression, with its content type and the
/// lower-case hex SHA-256 of the bytes that will be stored.
pub struct PreparedUpload {
    pub original_name: String,
    pub final_data: Vec<u8>,
    pub final_name: String,
    pub content_type: String,
    pub file_sha256: String,
}

/// Chooses what is stored: the compressed image and its name when compression was asked for
/// and succeeded, else the original bytes under the original name; and digests it.
/// `content_type` is the type of the stored name.
pub fn prepare_upload(
    original_name: String,
    data: Vec<u8>,
    compressed: Option<(Vec<u8>, String)>,
    content_type: String,
) -> (r: PreparedUpload)
    ensures
        r.original_name == original_name,
        match compressed {
            Some(c) => r.final_data@ == c.0@ && r.final_name == c.1,
            None => r.final_data@ == data@ && r.final_name@ == original_name@,
        },
        r.content_type == content_type,
        r.file_sha256@ == hex_seq(sha256(r.final_data@)),
{
    let (final_data, final_name) = match compressed {
        Some(c) => c,
        None => {
            let name = owned(original_name.as_str());
            (data, name)
        },
    };
    let file_sha256 = sha256_hex(final_data.as_slice());
    PreparedUpload { original_name, final_data, final_name, content_type, file_sha256 }
}

/// The metadata of a new upload reservation: a pending, live file owned by
/// `reservation_token`, stored at `{tenant}/{date}/{storage name}` in `bucket`. Its expiry is
/// set later, under the tenant's lock.
pub fn new_upload_reservation(
    id: i64,
    tenant_id: &str,
    prepared: &PreparedUpload,
    storage_name: String,
    date_prefix: &str,
    bucket: &str,
    upload_by: String,
    reservation_token: String,
    now: i64,
) -> (r: AppResult<SysFile>)
    ensures
        r is Ok <==> prepared.final_data@.len() <= i64::MAX,
        r is Err ==> r->Err_0 is PayloadTooLarge,
        r matches Ok(f) ==> {
            &&& f.id == id
            &&& f.tenant_id@ == tenant_id@
            &&& f.original_name@ == prepared.original_name@
            &&& f.storage_name@ == storage_name@
            &&& f.storage_path@ == spec_object_key(tenant_id@, date_prefix@, storage_name@)
            &&& f.bucket@ == bucket@
            &&& f.file_url@ == bucket@ + "/"@ + f.storage_path@
            &&& f.file_size == prepared.final_data@.len()
            &&& f.content_type@ == prepared.content_type@
            &&& f.file_sha256@ == prepared.file_sha256@
            &&& f.upload_by == Some(upload_by)
            &&& f.upload_status@ == UPLOAD_STATUS_PENDING@
            &&& f.reservation_token == Some(reservation_token)
            &&& f.reservation_expires_at is None
            &&& f.del_flag@ == DEL_FLAG_NORMAL@
            &&& f.created_at == now && f.updated_at == now
        },
{
    let file_size = stored_file_size(prepared.final_data.len())?;
    let key = object_key(tenant_id, date_prefix, storage_name.as_str());
    let url = file_url(bucket, key.as_str());
    Ok(SysFile {
        id,
        tenant_id: owned(tenant_id),
        original_name: owned(prepared.original_name.as_str()),
        storage_name,
        storage_path: key,
        bucket: owned(bucket),
        file_url: url,
        file_size,
        content_type: owned(prepared.content_type.as_str()),
        file_sha256: owned(prepared.file_sha256.as_str()),
        upload_by: Some(upload_by),
        upload_status: owned(UPLOAD_STATUS_PENDING),
        reservation_token: Some(reservation_token),
        reservation_expires_at: None,
        del_flag: owned(DEL_FLAG_NORMAL),
        created_at: now,
        updated_at: now,
    })
}

/// How marking a reservation ready went.
pub enum FinalizeAttempt {
    /// Marked and committed.
    Committed,
    /// The reservation was no longer this upload's to mark.
    NotOwned,
    /// Marking or committing failed, so whether it took effect is unknown.
    Failed(AppError),
}

/// Settles the end of an upload once the file was read back (`reread`: whether it is found
/// ready, or why it could not be read): a committed mark is done; a refused mark is fine only if
/// the file is ready all the same; a failed one is confirmed by finding the file ready, and
/// otherwise reports its own error.
pub fn settle_finalization(attempt: FinalizeAttempt, reread: AppResult<bool>) -> (r: AppResult<()>)
    ensures
        match attempt {
            FinalizeAttempt::Committed => r is Ok,
            FinalizeAttempt::NotOwned => match reread {
                Ok(true) => r is Ok,
                Ok(false) => r is Err && r->Err_0 is Conflict,
                Err(e) => r == Err::<(), AppError>(e),
            },
            FinalizeAttempt::Failed(e) => match reread {
                Ok(true) => r is Ok,
                _ => r == Err::<(), AppError>(e),
            },
        },
{
    match attempt {
        FinalizeAttempt::Committed => Ok(()),
        FinalizeAttempt::NotOwned => {
            if reread? {
                Ok(())
            } else {
                Err(AppError::Conflict(owned("文件上传预留已失效")))
            }
        },
        FinalizeAttempt::Failed(e) => match reread {
            Ok(true) => Ok(()),
            _ => Err(e),
        },
    }
}

/// What the janitor does with an expired reservation.
#[derive(PartialEq, Eq, Structural, Debug, Clone, Copy)]
pub enum ExpiredReservationPlan {
    /// Mark it for cleanup, deleting no earlier than `cleanup_after` (Unix milliseconds).
    BeginCleanup { cleanup_after: i64 },
    /// Delete its object and metadata.
    DeleteCleanup,
}

/// What a failed upload does with its object.
#[derive(PartialEq, Eq, Structural, Debug, Clone, Copy)]
pub enum CompensationPlan {
    DeleteOwnedObject,
    PreserveObject,
}

pub open spec fn spec_plan_expired_reservation(
    del_flag: Seq<char>,
    upload_status: Seq<char>,
    expires_at: Option<i64>,
    now: i64,
    grace_secs: i64,
) -> Option<ExpiredReservationPlan> {
    if del_flag != DEL_FLAG_NORMAL@ || !(expires_at matches Some(e) && e <= now) {
        None
    } else if upload_status == UPLOAD_STATUS_PENDING@ {
        Some(ExpiredReservationPlan::BeginCleanup { cleanup_after: (now + grace_secs * 1000) as i64 })
    } else if upload_status == UPLOAD_STATUS_CLEANUP@ {
        Some(ExpiredReservationPlan::DeleteCleanup)
    } else {
        None
    }
}

/// Plans the janitor's step for a reservation at `now`: a live, expired `pending` reservation
/// is marked for cleanup after the grace; a live, expired `cleanup` reservation is deleted;
/// anything else is left alone.
pub fn plan_expired_reservation(reservation: &SysFile, now: i64, grace_secs: i64) -> (r: Option<ExpiredReservationPlan>)
    requires
        -(i64::MAX / 1000) <= grace_secs <= i64::MAX / 1000,
        i64::MIN <= now + grace_secs * 1000 <= i64::MAX,
    ensures
        r == spec_plan_expired_reservation(
            reservation.del_flag@,
            reservation.upload_status@,
            reservation.reservation_expires_at,
            now,
            grace_secs,
        ),
{
    let expired = match reservation.reservation_expires_at {
        Some(e) => e <= now,
        None => false,
    };
    if !str_eq(reservation.del_flag.as_str(), DEL_FLAG_NORMAL) || !expired {
        return None;
    }
    if str_eq(reservation.upload_status.as_str(), UPLOAD_STATUS_PENDING) {
        Some(ExpiredReservationPlan::BeginCleanup { cleanup_after: now + grace_secs * 1000 })
    } else if str_eq(reservation.upload_status.as_str(), UPLOAD_STATUS_CLEANUP) {
        Some(ExpiredReservationPlan::DeleteCleanup)
    } else {
        None
    }
}

/// A failed upload deletes the object only when it still owns the reservation.
pub fn plan_compensation(cleanup_claimed: bool) -> (r: CompensationPlan)
    ensures
        r == if cleanup_claimed {
            CompensationPlan::DeleteOwnedObject
        } else {
            CompensationPlan::PreserveObject
        },
{
    if cleanup_claimed {
        CompensationPlan::DeleteOwnedObject
    } else {
        CompensationPlan::PreserveObject
    }
}

/// The janitor's next sleep and error backoff after a batch: a success waits a minute and
/// resets the backoff; a failure waits the current backoff and doubles it, up to five minutes.
pub fn janitor_step(succeeded: bool, error_backoff: u64) -> (r: (u64, u64))
    ensures
        succeeded ==> r == (JANITOR_SUCCESS_INTERVAL_SECONDS, JANITOR_INITIAL_ERROR_BACKOFF_SECONDS),
        !succeeded ==> r.0 == error_backoff && r.1 == (if 2 * error_backoff <= JANITOR_MAX_ERROR_BACKOFF_SECONDS {
            2 * error_backoff
        } else {
            JANITOR_MAX_ERROR_BACKOFF_SECONDS as int
        }),
{
    if succeeded {
        (JANITOR_SUCCESS_INTERVAL_SECONDS, JANITOR_INITIAL_ERROR_BACKOFF_SECONDS)
    } else {
        let next = if error_backoff < JANITOR_MAX_ERROR_BACKOFF_SECONDS / 2 + 1 && error_backoff * 2 < JANITOR_MAX_ERROR_BACKOFF_SECONDS {
            error_backoff * 2
        } else {
            JANITOR_MAX_ERROR_BACKOFF_SECONDS
        };
        (error_backoff, next)
    }
}

/// Two-phase cleanup: a pending reservation claimed at `now` with the given grace is not
/// deleted before `now + grace`, and is deleted from then on.
pub proof fn law_cleanup_waits_for_grace(now: i64, grace_secs: i64, later: i64)
    requires
        0 <= grace_secs <= i64::MAX / 1000,
        now + grace_secs * 1000 <= i64::MAX,
    ensures
        ({
            let cleanup_after = (now + grace_secs * 1000) as i64;
            &&& spec_plan_expired_reservation(DEL_FLAG_NORMAL@, UPLOAD_STATUS_PENDING@, Some(now), now, grace_secs)
                == Some(ExpiredReservationPlan::BeginCleanup { cleanup_after })
            &&& later < cleanup_after ==> spec_plan_expired_reservation(
                DEL_FLAG_NORMAL@,
                UPLOAD_STATUS_CLEANUP@,
                Some(cleanup_after),
                later,
                grace_secs,
            ) is None
            &&& later >= cleanup_after ==> spec_plan_expired_reservation(
                DEL_FLAG_NORMAL@,
                UPLOAD_STATUS_CLEANUP@,
                Some(cleanup_after),
                later,
                grace_secs,
            ) == Some(ExpiredReservationPlan::DeleteCleanup)
        }),
{
    reveal_strlit("pending");
    reveal_strlit("cleanup");
    assert(UPLOAD_STATUS_PENDING@[0] == 'p');
    assert(UPLOAD_STATUS_CLEANUP@[0] == 'c');
    assert(UPLOAD_STATUS_PENDING@ != UPLOAD_STATUS_CLEANUP@);
}

/// The janitor's error backoff never exceeds five minutes once it is within that bound.
pub proof fn law_janitor_backoff_is_bounded(error_backoff: u64)
    requires
        error_backoff <= JANITOR_MAX_ERROR_BACKOFF_SECONDS,
    ensures
        (if 2 * error_backoff <= JANITOR_MAX_ERROR_BACKOFF_SECONDS {
            2 * error_backoff
        } else {
            JANITOR_MAX_ERROR_BACKOFF_SECONDS as int
        }) <= JANITOR_MAX_ERROR_BACKOFF_SECONDS,
{
}

/// How many expired reservations one janitor pass takes up.
pub const STALE_RESERVATION_BATCH_SIZE: u64 = 32;
/// How long a failed object delete waits before the janitor tries again.
pub const CLEANUP_RETRY_BACKOFF_MILLIS: i64 = 60_000;

/// What the janitor does with a reservation in cleanup once it tried to delete its object.
#[derive(PartialEq, Eq, Structural, Debug, Clone, Copy)]
pub enum CleanupFollowUp {
    /// The object could not be deleted: keep the cleanup state and retry at this instant.
    RetryAt(i64),
    /// The object is gone: delete the reservation row.
    DeleteRow,
}

/// After the object delete: a failure keeps the row for a retry 60 s after `now`; success
/// deletes the row.
pub fn cleanup_follow_up(object_deleted: bool, now: i64) -> (r: CleanupFollowUp)
    requires
        now + CLEANUP_RETRY_BACKOFF_MILLIS <= i64::MAX,
    ensures
        r == if object_deleted {
            CleanupFollowUp::DeleteRow
        } else {
            CleanupFollowUp::RetryAt((now + CLEANUP_RETRY_BACKOFF_MILLIS) as i64)
        },
{
    if object_deleted {
        CleanupFollowUp::DeleteRow
    } else {
        CleanupFollowUp::RetryAt(now + CLEANUP_RETRY_BACKOFF_MILLIS)
    }
}

} // verus!

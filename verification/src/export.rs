//! Asynchronous exports: which resource a job exports, when a claimed job runs, how its result
//! file is recorded, and how expired results are cleaned up.
use vstd::prelude::*;

use crate::crypto::{hex_seq, sha256, sha256_hex};
use crate::error::{AppError, AppResult};
use crate::text::{id_text, owned, push_str, signed_decimal, str_eq};
use crate::upload::{DEL_FLAG_NORMAL, SysFile, UPLOAD_STATUS_READY, file_url, stored_file_size};

verus! {

/// Job type of an export.
pub const EXPORT_JOB_TYPE: &'static str = "system.export.execute";
/// Job type of the cleanup of expired exports.
pub const EXPORT_CLEANUP_JOB_TYPE: &'static str = "system.export.cleanup";
/// Bucket of export results.
pub const EXPORT_BUCKET: &'static str = "exports";
/// How many expired exports one cleanup query reads.
pub const EXPORT_CLEANUP_BATCH_SIZE: u64 = 100;
/// Content type of an export result.
pub const XLSX_CONTENT_TYPE: &'static str = "application/vnd.openxmlformats-officedocument.spreadsheetml.sheet";
pub const EXPORT_STATUS_RUNNING: &'static str = "running";
pub const EXPORT_STATUS_SUCCEEDED: &'static str = "succeeded";
pub const EXPORT_STATUS_CANCELLED: &'static str = "cancelled";

/// A resource that can be exported.
#[derive(Debug, Clone, Copy, PartialEq, Eq, Structural)]
pub enum ExportResource {
    Users,
    Roles,
    Posts,
    Configs,
    DictTypes,
    OperLogs,
    LoginLogs,
}

pub open spec fn spec_resource_name(r: ExportResource) -> Seq<char> {
    match r {
        ExportResource::Users => "users"@,
        ExportResource::Roles => "roles"@,
        ExportResource::Posts => "posts"@,
        ExportResource::Configs => "configs"@,
        ExportResource::DictTypes => "dict-types"@,
        ExportResource::OperLogs => "operlogs"@,
        ExportResource::LoginLogs => "loginlogs"@,
    }
}

impl ExportResource {
    /// The name under which the resource is requested.
    pub fn as_str(self) -> (r: &'static str)
        ensures
            r@ == spec_resource_name(self),
    {
        match self {
            ExportResource::Users => "users",
            ExportResource::Roles => "roles",
            ExportResource::Posts => "posts",
            ExportResource::Configs => "configs",
            ExportResource::DictTypes => "dict-types",
            ExportResource::OperLogs => "operlogs",
            ExportResource::LoginLogs => "loginlogs",
        }
    }
}

/// The resource a job names; an unknown name is refused.
pub fn parse_export_resource(resource: &str) -> (r: AppResult<ExportResource>)
    ensures
        match r {
            Ok(x) => spec_resource_name(x) == resource@,
            Err(e) => e is Validation && e.spec_message() == "不支持的导出资源: "@ + resource@ && forall|x: ExportResource|
                spec_resource_name(x) != resource@,
        },
{
    if str_eq(resource, "users") {
        Ok(ExportResource::Users)
    } else if str_eq(resource, "roles") {
        Ok(ExportResource::Roles)
    } else if str_eq(resource, "posts") {
        Ok(ExportResource::Posts)
    } else if str_eq(resource, "configs") {
        Ok(ExportResource::Configs)
    } else if str_eq(resource, "dict-types") {
        Ok(ExportResource::DictTypes)
    } else if str_eq(resource, "operlogs") {
        Ok(ExportResource::OperLogs)
    } else if str_eq(resource, "loginlogs") {
        Ok(ExportResource::LoginLogs)
    } else {
        let mut msg = owned("不支持的导出资源: ");
        push_str(&mut msg, resource);
        proof {
            assert forall|x: ExportResource| spec_resource_name(x) != resource@ by {
                match x {
                    ExportResource::Users => {},
                    ExportResource::Roles => {},
                    ExportResource::Posts => {},
                    ExportResource::Configs => {},
                    ExportResource::DictTypes => {},
                    ExportResource::OperLogs => {},
                    ExportResource::LoginLogs => {},
                }
            }
        }
        Err(AppError::Validation(msg))
    }
}

/// A cancelled export is not claimed.
pub fn export_cancelled(status: &str) -> (r: bool)
    ensures
        r == (status@ == EXPORT_STATUS_CANCELLED@),
{
    str_eq(status, EXPORT_STATUS_CANCELLED)
}

/// A claimed export runs when this claim moved it to running, or it was already running (a
/// retried attempt).
pub fn export_should_run(status: &str, marked_running: bool) -> (r: bool)
    ensures
        r == (marked_running || status@ == EXPORT_STATUS_RUNNING@),
{
    marked_running || str_eq(status, EXPORT_STATUS_RUNNING)
}

/// Before its result is stored, an export must still be running. One that already succeeded
/// with this very file needs nothing more (`Ok(false)`); with another file it is a conflict.
pub fn check_export_persist(status: &str, result_file_id: Option<i64>, file_id: i64) -> (r: AppResult<bool>)
    ensures
        status@ == EXPORT_STATUS_SUCCEEDED@ ==> if result_file_id == Some(file_id) {
            r == Ok::<bool, AppError>(false)
        } else {
            r is Err && r->Err_0 is Conflict
        },
        status@ != EXPORT_STATUS_SUCCEEDED@ ==> if status@ == EXPORT_STATUS_RUNNING@ {
            r == Ok::<bool, AppError>(true)
        } else {
            r is Err && r->Err_0 is Conflict
        },
{
    if str_eq(status, EXPORT_STATUS_SUCCEEDED) {
        return if result_file_id == Some(file_id) {
            Ok(false)
        } else {
            Err(AppError::Conflict(owned("导出任务结果文件标识冲突")))
        };
    }
    if !str_eq(status, EXPORT_STATUS_RUNNING) {
        return Err(AppError::Conflict(owned("导出任务已不再允许运行")));
    }
    Ok(true)
}

/// The file record of an export result: a ready, live spreadsheet in the export bucket under
/// `key`, named `file_name`, with the size and SHA-256 of `bytes`.
pub fn export_file_record(
    file_id: i64,
    tenant_id: &str,
    file_name: &str,
    key: &str,
    bytes: &[u8],
    upload_by: String,
    now: i64,
) -> (r: AppResult<SysFile>)
    ensures
        r is Ok <==> bytes@.len() <= i64::MAX,
        r is Err ==> r->Err_0 is PayloadTooLarge,
        r matches Ok(f) ==> {
            &&& f.id == file_id
            &&& f.tenant_id@ == tenant_id@
            &&& f.original_name@ == file_name@ && f.storage_name@ == file_name@
            &&& f.storage_path@ == key@
            &&& f.bucket@ == EXPORT_BUCKET@
            &&& f.file_url@ == EXPORT_BUCKET@ + "/"@ + key@
            &&& f.file_size == bytes@.len()
            &&& f.content_type@ == XLSX_CONTENT_TYPE@
            &&& f.file_sha256@ == hex_seq(sha256(bytes@))
            &&& f.upload_by == Some(upload_by)
            &&& f.upload_status@ == UPLOAD_STATUS_READY@
            &&& f.reservation_token is None && f.reservation_expires_at is None
            &&& f.del_flag@ == DEL_FLAG_NORMAL@
            &&& f.created_at == now && f.updated_at == now
        },
{
    let file_size = stored_file_size(bytes.len())?;
    let file_sha256 = sha256_hex(bytes);
    Ok(SysFile {
        id: file_id,
        tenant_id: owned(tenant_id),
        original_name: owned(file_name),
        storage_name: owned(file_name),
        storage_path: owned(key),
        bucket: owned(EXPORT_BUCKET),
        file_url: file_url(EXPORT_BUCKET, key),
        file_size,
        content_type: owned(XLSX_CONTENT_TYPE),
        file_sha256,
        upload_by: Some(upload_by),
        upload_status: owned(UPLOAD_STATUS_READY),
        reservation_token: None,
        reservation_expires_at: None,
        del_flag: owned(DEL_FLAG_NORMAL),
        created_at: now,
        updated_at: now,
    })
}

/// What the cleanup reads of an export job. Times are Unix milliseconds.
pub struct ExportJobRecord {
    pub id: i64,
    pub tenant_id: String,
    pub status: String,
    pub result_file_id: Option<i64>,
    pub expires_at: Option<i64>,
}

pub open spec fn spec_still_expired(current: Option<ExportJobRecord>, tenant_id: Seq<char>, file_id: i64, now: i64) -> bool {
    match current {
        Some(c) => c.tenant_id@ == tenant_id && c.status@ == EXPORT_STATUS_SUCCEEDED@ && c.result_file_id == Some(
            file_id,
        ) && (c.expires_at matches Some(e) && e <= now),
        None => false,
    }
}

/// An export's file is removed only while, under the lock, the export belongs to the tenant
/// being cleaned, succeeded with exactly that file, and has an expiry that passed; an export
/// of another tenant, not (or no longer) succeeded, holding another file, without expiry, or
/// expiring after `now` is left alone, and so is one that disappeared.
pub proof fn law_only_expired_success_of_the_tenant_is_cleaned(
    current: Option<ExportJobRecord>,
    tenant_id: Seq<char>,
    file_id: i64,
    now: i64,
)
    ensures
        spec_still_expired(current, tenant_id, file_id, now) ==> (current matches Some(c) && c.tenant_id@ == tenant_id
            && c.status@ == "succeeded"@ && c.result_file_id == Some(file_id) && (c.expires_at matches Some(e) && e
            <= now)),
        (current matches Some(c) && c.tenant_id@ == tenant_id && c.status@ == "succeeded"@ && c.result_file_id == Some(
            file_id,
        ) && (c.expires_at matches Some(e) && e <= now)) ==> spec_still_expired(current, tenant_id, file_id, now),
{
}

/// Under its lock the export is still the expired success whose file is being removed: same
/// tenant, succeeded with that file, expired at `now`.
pub fn export_still_expired(current: &Option<ExportJobRecord>, tenant_id: &str, file_id: i64, now: i64) -> (r: bool)
    ensures
        r == spec_still_expired(*current, tenant_id@, file_id, now),
{
    match current {
        Some(c) => {
            let expired = match c.expires_at {
                Some(e) => e <= now,
                None => false,
            };
            str_eq(c.tenant_id.as_str(), tenant_id) && str_eq(c.status.as_str(), EXPORT_STATUS_SUCCEEDED)
                && c.result_file_id == Some(file_id) && expired
        },
        None => false,
    }
}

/// The tally of a cleanup round: exports cleaned, exports that failed, and the first failure.
pub struct CleanupTally {
    pub cleaned: u64,
    pub failed: u64,
    pub first_error: Option<AppError>,
}

impl CleanupTally {
    pub fn new() -> (r: CleanupTally)
        ensures
            r.cleaned == 0 && r.failed == 0 && r.first_error is None,
    {
        CleanupTally { cleaned: 0, failed: 0, first_error: None }
    }

    /// Records one export's outcome: `Ok(true)` cleaned it, `Ok(false)` found nothing to do.
    /// A failure does not stop the round; the first one is kept.
    pub fn record(&mut self, outcome: AppResult<bool>)
        requires
            old(self).cleaned < u64::MAX,
            old(self).failed < u64::MAX,
        ensures
            match outcome {
                Ok(true) => *final(self) == CleanupTally { cleaned: (old(self).cleaned + 1) as u64, ..*old(self) },
                Ok(false) => *final(self) == *old(self),
                Err(e) => final(self).cleaned == old(self).cleaned && final(self).failed == old(self).failed + 1
                    && final(self).first_error == match old(self).first_error {
                    Some(f) => Some(f),
                    None => Some(e),
                },
            },
    {
        match outcome {
            Ok(true) => {
                self.cleaned = self.cleaned + 1;
            },
            Ok(false) => {},
            Err(e) => {
                self.failed = self.failed + 1;
                if self.first_error.is_none() {
                    self.first_error = Some(e);
                }
            },
        }
    }

    /// The round's result: the first failure if there was one, else how many were cleaned.
    pub fn finish(self) -> (r: AppResult<u64>)
        ensures
            match self.first_error {
                Some(e) => r == Err::<u64, AppError>(e),
                None => r == Ok::<u64, AppError>(self.cleaned),
            },
    {
        match self.first_error {
            Some(e) => Err(e),
            None => Ok(self.cleaned),
        }
    }
}

/// A stored export job as its owner sees it. Times are Unix milliseconds.
pub struct StoredExportJob {
    pub id: i64,
    pub tenant_id: String,
    pub resource: String,
    pub status: String,
    pub result_file_name: Option<String>,
    pub content_type: Option<String>,
    pub file_size: Option<i64>,
    pub expires_at: Option<i64>,
    pub error_message: Option<String>,
    pub created_at: i64,
    pub updated_at: i64,
    pub completed_at: Option<i64>,
    pub notification_read_at: Option<i64>,
}

/// An export job as listed: no internal job payload, its id in decimal.
pub struct ExportJobVo {
    pub id: String,
    pub resource: String,
    pub status: String,
    pub result_file_name: Option<String>,
    pub content_type: Option<String>,
    pub file_size: Option<i64>,
    pub expires_at: Option<i64>,
    pub error_message: Option<String>,
    pub created_at: i64,
    pub updated_at: i64,
    pub completed_at: Option<i64>,
    pub notification_read_at: Option<i64>,
}

/// The listing view of an export job.
pub fn export_job_vo(j: StoredExportJob) -> (r: ExportJobVo)
    ensures
        r.id@ == signed_decimal(j.id as int),
        r.resource == j.resource,
        r.status == j.status,
        r.result_file_name == j.result_file_name,
        r.content_type == j.content_type,
        r.file_size == j.file_size,
        r.expires_at == j.expires_at,
        r.error_message == j.error_message,
        r.created_at == j.created_at,
        r.updated_at == j.updated_at,
        r.completed_at == j.completed_at,
        r.notification_read_at == j.notification_read_at,
{
    ExportJobVo {
        id: id_text(j.id),
        resource: j.resource,
        status: j.status,
        result_file_name: j.result_file_name,
        content_type: j.content_type,
        file_size: j.file_size,
        expires_at: j.expires_at,
        error_message: j.error_message,
        created_at: j.created_at,
        updated_at: j.updated_at,
        completed_at: j.completed_at,
        notification_read_at: j.notification_read_at,
    }
}

} // verus!

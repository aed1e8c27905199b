//! Data retention: the policy, the cut-off instants, and how a cleanup run is summarized.
use vstd::prelude::*;

use crate::error::{AppError, AppResult};
use crate::strset::{StrMap, lemma_map_entry, lemma_map_key};
use crate::text::{byte_len, push_str, utf8_len, chars_of, string_from_range, id_text, opt_id, opt_id_text, opt_string_view, owned, signed_decimal, str_eq};
use crate::transfer::lifecycle::{TransferState, TransferStatus};

verus! {

pub const DATA_RETENTION_JOB_TYPE: &'static str = "system.data_retention.cleanup";
pub const TRIGGER_MANUAL: &'static str = "manual";
pub const TRIGGER_SCHEDULED: &'static str = "scheduled";
pub const RUN_STATUS_PARTIAL: &'static str = "partial";
pub const RUN_STATUS_SUCCEEDED: &'static str = "succeeded";
pub const SYSTEM_TENANT_ID: &'static str = "system";
pub const MILLIS_PER_HOUR: i64 = 3_600_000;
pub const MILLIS_PER_DAY: i64 = 86_400_000;

/// Retention settings of the deployment.
pub struct DataRetentionConfig {
    pub cleanup_batch_size: usize,
    pub max_rows_per_resource_per_run: usize,
    pub background_job_succeeded_days: u32,
    pub outbox_published_days: u32,
    pub schedule_execution_days: u32,
    pub export_job_history_days: u32,
    pub operation_log_days: u32,
    pub login_log_days: u32,
    pub user_import_history_days: u32,
    pub user_import_artifact_hours: u32,
    pub retention_run_days: u32,
    pub service_access_audit_days: u32,
}

/// Lifetimes of configuration-transfer artifacts.
pub struct TenantConfigTransferConfig {
    pub artifact_hours: u32,
    pub rollback_hours: u32,
}

/// The retention policy as reported to administrators.
pub struct DataRetentionPolicy {
    pub cleanup_batch_size: usize,
    pub max_rows_per_resource_per_run: usize,
    pub background_job_succeeded_days: u32,
    pub outbox_published_days: u32,
    pub schedule_execution_days: u32,
    pub export_job_history_days: u32,
    pub operation_log_days: u32,
    pub login_log_days: u32,
    pub user_import_history_days: u32,
    pub user_import_artifact_hours: u32,
    pub tenant_config_artifact_hours: u32,
    pub tenant_config_rollback_hours: u32,
    pub retention_run_days: u32,
    pub service_access_audit_days: u32,
    pub dead_background_jobs_permanent: bool,
    pub dead_outbox_events_permanent: bool,
}

/// The policy of the given settings; dead jobs and dead outbox events are always kept.
pub open spec fn policy_of(config: DataRetentionConfig, tenant_config: TenantConfigTransferConfig) -> DataRetentionPolicy {
    DataRetentionPolicy {
        cleanup_batch_size: config.cleanup_batch_size,
        max_rows_per_resource_per_run: config.max_rows_per_resource_per_run,
        background_job_succeeded_days: config.background_job_succeeded_days,
        outbox_published_days: config.outbox_published_days,
        schedule_execution_days: config.schedule_execution_days,
        export_job_history_days: config.export_job_history_days,
        operation_log_days: config.operation_log_days,
        login_log_days: config.login_log_days,
        user_import_history_days: config.user_import_history_days,
        user_import_artifact_hours: config.user_import_artifact_hours,
        tenant_config_artifact_hours: tenant_config.artifact_hours,
        tenant_config_rollback_hours: tenant_config.rollback_hours,
        retention_run_days: config.retention_run_days,
        service_access_audit_days: config.service_access_audit_days,
        dead_background_jobs_permanent: true,
        dead_outbox_events_permanent: true,
    }
}

impl DataRetentionPolicy {
    /// The policy of the given settings; dead jobs and dead outbox events are always kept.
    pub fn from_configs(config: &DataRetentionConfig, tenant_config: &TenantConfigTransferConfig) -> (r: DataRetentionPolicy)
        ensures
            r.cleanup_batch_size == config.cleanup_batch_size,
            r.max_rows_per_resource_per_run == config.max_rows_per_resource_per_run,
            r.background_job_succeeded_days == config.background_job_succeeded_days,
            r.outbox_published_days == config.outbox_published_days,
            r.schedule_execution_days == config.schedule_execution_days,
            r.export_job_history_days == config.export_job_history_days,
            r.operation_log_days == config.operation_log_days,
            r.login_log_days == config.login_log_days,
            r.user_import_history_days == config.user_import_history_days,
            r.user_import_artifact_hours == config.user_import_artifact_hours,
            r.tenant_config_artifact_hours == tenant_config.artifact_hours,
            r.tenant_config_rollback_hours == tenant_config.rollback_hours,
            r.retention_run_days == config.retention_run_days,
            r.service_access_audit_days == config.service_access_audit_days,
            r.dead_background_jobs_permanent,
            r.dead_outbox_events_permanent,
            r == policy_of(*config, *tenant_config),
    {
        DataRetentionPolicy {
            cleanup_batch_size: config.cleanup_batch_size,
            max_rows_per_resource_per_run: config.max_rows_per_resource_per_run,
            background_job_succeeded_days: config.background_job_succeeded_days,
            outbox_published_days: config.outbox_published_days,
            schedule_execution_days: config.schedule_execution_days,
            export_job_history_days: config.export_job_history_days,
            operation_log_days: config.operation_log_days,
            login_log_days: config.login_log_days,
            user_import_history_days: config.user_import_history_days,
            user_import_artifact_hours: config.user_import_artifact_hours,
            tenant_config_artifact_hours: tenant_config.artifact_hours,
            tenant_config_rollback_hours: tenant_config.rollback_hours,
            retention_run_days: config.retention_run_days,
            service_access_audit_days: config.service_access_audit_days,
            dead_background_jobs_permanent: true,
            dead_outbox_events_permanent: true,
        }
    }
}

/// A kind of record that retention cleans up.
#[derive(Debug, Clone, Copy, PartialEq, Eq, Structural)]
pub enum RetentionResource {
    BackgroundJobs,
    OutboxEvents,
    ScheduleExecutions,
    ExportJobs,
    OperationLogs,
    LoginLogs,
    UserImports,
    ServiceAccessAudits,
    RetentionRuns,
}

/// Records of `resource` created before `before` (Unix milliseconds) are due.
#[derive(Debug, Clone, Copy, PartialEq, Eq, Structural)]
pub struct RetentionCutoff {
    pub resource: RetentionResource,
    pub before: i64,
}

/// `days` whole days before `now`.
pub open spec fn days_before(now: i64, days: u32) -> int {
    now - days * MILLIS_PER_DAY
}

/// Instants far enough from the bounds that every cut-off stays representable.
pub open spec fn cutoff_safe(now: i64) -> bool {
    now - u32::MAX * MILLIS_PER_DAY >= i64::MIN
}

fn cutoff(resource: RetentionResource, now: i64, days: u32) -> (r: RetentionCutoff)
    requires
        cutoff_safe(now),
    ensures
        r == (RetentionCutoff { resource, before: days_before(now, days) as i64 }),
{
    RetentionCutoff { resource, before: now - days as i64 * MILLIS_PER_DAY }
}

/// The cut-off of every resource at `now`, in a fixed order.
pub fn cutoffs(config: &DataRetentionConfig, now: i64) -> (r: Vec<RetentionCutoff>)
    requires
        cutoff_safe(now),
    ensures
        r@ == seq![
            RetentionCutoff { resource: RetentionResource::BackgroundJobs, before: days_before(now, config.background_job_succeeded_days) as i64 },
            RetentionCutoff { resource: RetentionResource::OutboxEvents, before: days_before(now, config.outbox_published_days) as i64 },
            RetentionCutoff { resource: RetentionResource::ScheduleExecutions, before: days_before(now, config.schedule_execution_days) as i64 },
            RetentionCutoff { resource: RetentionResource::ExportJobs, before: days_before(now, config.export_job_history_days) as i64 },
            RetentionCutoff { resource: RetentionResource::OperationLogs, before: days_before(now, config.operation_log_days) as i64 },
            RetentionCutoff { resource: RetentionResource::LoginLogs, before: days_before(now, config.login_log_days) as i64 },
            RetentionCutoff { resource: RetentionResource::UserImports, before: days_before(now, config.user_import_history_days) as i64 },
            RetentionCutoff { resource: RetentionResource::ServiceAccessAudits, before: days_before(now, config.service_access_audit_days) as i64 },
            RetentionCutoff { resource: RetentionResource::RetentionRuns, before: days_before(now, config.retention_run_days) as i64 },
        ],
{
    let mut r: Vec<RetentionCutoff> = Vec::new();
    r.push(cutoff(RetentionResource::BackgroundJobs, now, config.background_job_succeeded_days));
    r.push(cutoff(RetentionResource::OutboxEvents, now, config.outbox_published_days));
    r.push(cutoff(RetentionResource::ScheduleExecutions, now, config.schedule_execution_days));
    r.push(cutoff(RetentionResource::ExportJobs, now, config.export_job_history_days));
    r.push(cutoff(RetentionResource::OperationLogs, now, config.operation_log_days));
    r.push(cutoff(RetentionResource::LoginLogs, now, config.login_log_days));
    r.push(cutoff(RetentionResource::UserImports, now, config.user_import_history_days));
    r.push(cutoff(RetentionResource::ServiceAccessAudits, now, config.service_access_audit_days));
    r.push(cutoff(RetentionResource::RetentionRuns, now, config.retention_run_days));
    r
}

/// Import artifacts older than `user_import_artifact_hours` are due.
pub fn import_artifact_cutoff(config: &DataRetentionConfig, now: i64) -> (r: i64)
    requires
        cutoff_safe(now),
    ensures
        r == now - config.user_import_artifact_hours * MILLIS_PER_HOUR,
{
    now - config.user_import_artifact_hours as i64 * MILLIS_PER_HOUR
}

/// The trigger recorded for a run: `manual` or `scheduled` as asked, otherwise `scheduled`.
pub fn normalize_trigger_kind(requested: Option<&str>) -> (r: &'static str)
    ensures
        r@ == match requested {
            Some(k) => if k@ == TRIGGER_MANUAL@ { TRIGGER_MANUAL@ } else { TRIGGER_SCHEDULED@ },
            None => TRIGGER_SCHEDULED@,
        },
{
    match requested {
        Some(k) => {
            if str_eq(k, TRIGGER_MANUAL) {
                TRIGGER_MANUAL
            } else {
                TRIGGER_SCHEDULED
            }
        },
        None => TRIGGER_SCHEDULED,
    }
}

/// A finished run is partial when some resource still has due rows, else succeeded.
pub fn finished_run_status(remaining: &[u64]) -> (r: &'static str)
    ensures
        r@ == if exists|i: int| 0 <= i < remaining@.len() && remaining@[i] > 0 {
            RUN_STATUS_PARTIAL@
        } else {
            RUN_STATUS_SUCCEEDED@
        },
{
    let mut i: usize = 0;
    while i < remaining.len()
        invariant
            i <= remaining.len(),
            forall|k: int| 0 <= k < i ==> remaining@[k] == 0,
        decreases remaining.len() - i,
    {
        if remaining[i] > 0 {
            return RUN_STATUS_PARTIAL;
        }
        i = i + 1;
    }
    RUN_STATUS_SUCCEEDED
}

/// What a cleanup run has done so far: rows deleted per resource, summed over the run's steps
/// (and over an earlier attempt of the same run), and rows still due per resource, as the
/// resource's last step left them.
pub struct RunProgress {
    pub deleted: StrMap<u64>,
    pub remaining: StrMap<u64>,
}

/// Some resource still has due rows.
pub open spec fn has_remaining(remaining: StrMap<u64>) -> bool {
    exists|k: Seq<char>| #[trigger] remaining.get_spec(k) matches Some(c) && c > 0
}

impl RunProgress {
    pub open spec fn wf(&self) -> bool {
        self.deleted.wf() && self.remaining.wf()
    }

    /// Resumes a run that had already deleted `deleted`; nothing is known yet to remain.
    pub fn resume(deleted: StrMap<u64>) -> (r: RunProgress)
        requires
            deleted.wf(),
        ensures
            r.wf(),
            r.deleted == deleted,
            forall|k: Seq<char>| r.remaining.get_spec(k) is None,
    {
        RunProgress { deleted, remaining: StrMap::new() }
    }

    /// Records a cleanup step of `resource` that deleted `deleted` rows and left `remaining`.
    pub fn record(&mut self, resource: String, deleted: u64, remaining: u64)
        requires
            old(self).wf(),
            (match old(self).deleted.get_spec(resource@) {
                Some(d) => d + deleted,
                None => deleted as int,
            }) <= u64::MAX,
        ensures
            final(self).wf(),
            final(self).deleted.get_spec(resource@) == Some((match old(self).deleted.get_spec(resource@) {
                Some(d) => d + deleted,
                None => deleted as int,
            }) as u64),
            final(self).remaining.get_spec(resource@) == Some(remaining),
            forall|k: Seq<char>| k != resource@ ==> final(self).deleted.get_spec(k) == old(self).deleted.get_spec(k)
                && final(self).remaining.get_spec(k) == old(self).remaining.get_spec(k),
    {
        let prior: u64 = match self.deleted.get(resource.as_str()) {
            Some(d) => *d,
            None => 0,
        };
        let key = owned(resource.as_str());
        self.deleted.upsert(key, prior + deleted);
        self.remaining.upsert(resource, remaining);
    }

    /// How the run ends: partial when some resource still has due rows, else succeeded.
    pub fn status(&self) -> (r: &'static str)
        requires
            self.wf(),
        ensures
            r@ == if has_remaining(self.remaining) {
                RUN_STATUS_PARTIAL@
            } else {
                RUN_STATUS_SUCCEEDED@
            },
    {
        let entries = &self.remaining.entries;
        let mut i: usize = 0;
        while i < entries.len()
            invariant
                i <= entries.len(),
                entries@ == self.remaining.entries@,
                self.remaining.wf(),
                forall|j: int| 0 <= j < i ==> entries@[j].1 == 0,
            decreases entries.len() - i,
        {
            if entries[i].1 > 0 {
                proof {
                    lemma_map_entry(self.remaining, i as int);
                    assert(self.remaining.get_spec(entries@[i as int].0@) matches Some(c) && c > 0);
                }
                return RUN_STATUS_PARTIAL;
            }
            i = i + 1;
        }
        proof {
            if has_remaining(self.remaining) {
                let k = choose|k: Seq<char>| #[trigger] self.remaining.get_spec(k) matches Some(c) && c > 0;
                lemma_map_key(self.remaining, k);
            }
        }
        RUN_STATUS_SUCCEEDED
    }
}

// ---------------------------------------------------------------------------
// Expired configuration packages and rollback snapshots
// ---------------------------------------------------------------------------
pub const BUNDLE_STATUS_SUCCEEDED: &'static str = "succeeded";
pub const BUNDLE_STATUS_FAILED: &'static str = "failed";
pub const BUNDLE_STATUS_EXPIRED: &'static str = "expired";
/// How long an unreferenced configuration file is kept before it is deleted.
pub const CONFIG_FILE_CLEANUP_GRACE_MILLIS: i64 = 900_000;

/// How many rows the next batch may take: the batch size, but no more than the run's
/// per-resource maximum still allows (none once it is reached).
pub fn next_batch_limit(deleted: u64, maximum: usize, batch_size: usize) -> (r: usize)
    ensures
        r == if deleted >= maximum {
            0
        } else if batch_size <= maximum - deleted {
            batch_size as int
        } else {
            maximum - deleted
        },
{
    let done: usize = if deleted > usize::MAX as u64 {
        usize::MAX
    } else {
        deleted as usize
    };
    if done >= maximum {
        return 0;
    }
    let room = maximum - done;
    if batch_size <= room {
        batch_size
    } else {
        room
    }
}

/// Another batch follows only when this one was full.
pub fn batch_continues(batch_len: usize, limit: usize) -> (r: bool)
    ensures
        r == (batch_len > 0 && batch_len >= limit),
{
    batch_len > 0 && batch_len >= limit
}

/// Statuses of a transfer that still needs the package it was created from.
pub open spec fn needs_package(status: Seq<char>) -> bool {
    status == "pending_preview"@ || status == "preview_pending"@ || status == "previewing"@ || status
        == "apply_pending"@ || status == "applying"@
}

fn status_needs_package(status: &str) -> (r: bool)
    ensures
        r == needs_package(status@),
{
    str_eq(status, "pending_preview") || str_eq(status, "preview_pending") || str_eq(status, "previewing")
        || str_eq(status, "apply_pending") || str_eq(status, "applying")
}

pub open spec fn spec_package_detachable(
    status: Seq<char>,
    file_id: Option<i64>,
    expires_at: Option<i64>,
    before: i64,
    transfer_statuses: Seq<Seq<char>>,
) -> bool {
    &&& file_id is Some
    &&& expires_at matches Some(e) && e <= before
    &&& (status == BUNDLE_STATUS_SUCCEEDED@ || status == BUNDLE_STATUS_FAILED@ || status == BUNDLE_STATUS_EXPIRED@)
    &&& forall|i: int| 0 <= i < transfer_statuses.len() ==> !needs_package(#[trigger] transfer_statuses[i])
}

/// A package's file is released when the package expired by `before`, finished (succeeded,
/// failed or already expired), and no transfer created from it (with `transfer_statuses`)
/// is queued for or running a preview or an apply.
pub fn package_detachable(
    status: &str,
    file_id: Option<i64>,
    expires_at: Option<i64>,
    before: i64,
    transfer_statuses: &[String],
) -> (r: bool)
    ensures
        r == spec_package_detachable(status@, file_id, expires_at, before, transfer_statuses@.map_values(|s: String| s@)),
        r ==> forall|k: int|
            0 <= k < transfer_statuses@.len() ==> {
                let t = (#[trigger] transfer_statuses@[k])@;
                t != "pending_preview"@ && t != "preview_pending"@ && t != "previewing"@ && t != "apply_pending"@
                    && t != "applying"@
            },
{
    let ghost ts = transfer_statuses@.map_values(|s: String| s@);
    if file_id.is_none() {
        return false;
    }
    let expired = match expires_at {
        Some(e) => e <= before,
        None => false,
    };
    if !expired {
        return false;
    }
    if !(str_eq(status, BUNDLE_STATUS_SUCCEEDED) || str_eq(status, BUNDLE_STATUS_FAILED) || str_eq(status, BUNDLE_STATUS_EXPIRED)) {
        return false;
    }
    let mut i: usize = 0;
    while i < transfer_statuses.len()
        invariant
            i <= transfer_statuses.len(),
            ts == transfer_statuses@.map_values(|s: String| s@),
            forall|k: int| 0 <= k < i ==> !needs_package(#[trigger] ts[k]),
        decreases transfer_statuses.len() - i,
    {
        if status_needs_package(transfer_statuses[i].as_str()) {
            assert(ts[i as int] == transfer_statuses@[i as int]@);
            return false;
        }
        i = i + 1;
    }
    assert forall|k: int| 0 <= k < transfer_statuses@.len() implies !needs_package(
        (#[trigger] transfer_statuses@[k])@,
    ) by {
        assert(ts[k] == transfer_statuses@[k]@);
    }
    true
}

pub open spec fn spec_snapshot_detachable(state: TransferState, before: i64) -> bool {
    &&& state.snapshot_file_id is Some
    &&& state.rollback_expires_at matches Some(e) && e <= before
    &&& state.status != TransferStatus::RollbackPending
    &&& state.status != TransferStatus::RollingBack
}

/// A rollback snapshot is released when its window closed by `before` and no rollback of its
/// transfer is queued or running.
pub fn snapshot_detachable(state: &TransferState, before: i64) -> (r: bool)
    ensures
        r == spec_snapshot_detachable(*state, before),
{
    let expired = match state.rollback_expires_at {
        Some(e) => e <= before,
        None => false,
    };
    state.snapshot_file_id.is_some() && expired && state.status != TransferStatus::RollbackPending && state.status
        != TransferStatus::RollingBack
}

/// When a configuration file released at `now` may be deleted, if nothing refers to it then.
pub fn config_file_cleanup_after(now: i64) -> (r: i64)
    requires
        now + CONFIG_FILE_CLEANUP_GRACE_MILLIS <= i64::MAX,
    ensures
        r == now + CONFIG_FILE_CLEANUP_GRACE_MILLIS,
{
    now + CONFIG_FILE_CLEANUP_GRACE_MILLIS
}

/// A package's file is never released while a transfer created from it is queued for or
/// running a preview or an apply (pending_preview, preview_pending, previewing, apply_pending,
/// applying), whatever the package's status, file and expiry.
pub proof fn law_package_kept_while_transfer_in_flight(
    status: Seq<char>,
    file_id: Option<i64>,
    expires_at: Option<i64>,
    before: i64,
    transfer_statuses: Seq<Seq<char>>,
    i: int,
)
    requires
        0 <= i < transfer_statuses.len(),
        transfer_statuses[i] == "pending_preview"@ || transfer_statuses[i] == "preview_pending"@
            || transfer_statuses[i] == "previewing"@ || transfer_statuses[i] == "apply_pending"@
            || transfer_statuses[i] == "applying"@,
    ensures
        !spec_package_detachable(status, file_id, expires_at, before, transfer_statuses),
{
    assert(needs_package(transfer_statuses[i]));
}

/// A package whose file is present, whose expiry passed by `before` and which finished
/// (succeeded, failed or expired) is released once no transfer created from it is queued for
/// or running a preview or an apply.
pub proof fn law_finished_idle_package_is_released(
    status: Seq<char>,
    file_id: i64,
    expires_at: i64,
    before: i64,
    transfer_statuses: Seq<Seq<char>>,
)
    requires
        expires_at <= before,
        status == "succeeded"@ || status == "failed"@ || status == "expired"@,
        forall|k: int|
            0 <= k < transfer_statuses.len() ==> #[trigger] transfer_statuses[k] != "pending_preview"@
                && transfer_statuses[k] != "preview_pending"@ && transfer_statuses[k] != "previewing"@
                && transfer_statuses[k] != "apply_pending"@ && transfer_statuses[k] != "applying"@,
    ensures
        spec_package_detachable(status, Some(file_id), Some(expires_at), before, transfer_statuses),
{
}

/// A package is kept while it has no file, no expiry, an expiry after `before`, or a status
/// other than succeeded, failed and expired.
pub proof fn law_unfinished_or_unexpired_package_is_kept(
    status: Seq<char>,
    file_id: Option<i64>,
    expires_at: Option<i64>,
    before: i64,
    transfer_statuses: Seq<Seq<char>>,
)
    requires
        file_id is None || expires_at is None || (expires_at matches Some(e) && e > before) || (status
            != "succeeded"@ && status != "failed"@ && status != "expired"@),
    ensures
        !spec_package_detachable(status, file_id, expires_at, before, transfer_statuses),
{
}

/// A rollback snapshot is never released while a rollback of its transfer is queued or
/// running; otherwise it is released once it has a file and its window closed by `before`.
pub proof fn law_snapshot_kept_while_rollback_in_flight(state: TransferState, before: i64)
    ensures
        state.status == TransferStatus::RollbackPending || state.status == TransferStatus::RollingBack
            ==> !spec_snapshot_detachable(state, before),
        state.status != TransferStatus::RollbackPending && state.status != TransferStatus::RollingBack
            && state.snapshot_file_id is Some && (state.rollback_expires_at matches Some(e) && e <= before)
            ==> spec_snapshot_detachable(state, before),
{
}

/// The snapshot of an applied transfer stays as long as the transfer can be rolled back.
pub proof fn law_snapshot_kept_through_rollback_window(
    state: TransferState,
    snapshot_file_id: i64,
    configuration_version: i64,
    authorization_epoch: i32,
    now: i64,
    rollback_hours: u32,
    before: i64,
)
    requires
        now + rollback_hours * crate::transfer::execute::HOUR_MILLIS <= i64::MAX,
        before < now + rollback_hours * crate::transfer::execute::HOUR_MILLIS,
    ensures
        !spec_snapshot_detachable(
            crate::transfer::execute::spec_record_applied(
                state,
                snapshot_file_id,
                configuration_version,
                authorization_epoch,
                now,
                rollback_hours,
            ),
            before,
        ),
{
}

/// A run deletes no more rows of a resource than its maximum: a batch never exceeds the
/// room left.
pub proof fn law_batches_stay_within_maximum(deleted: u64, maximum: usize, batch_size: usize)
    ensures
        deleted < maximum ==> deleted + (if batch_size <= maximum - deleted {
            batch_size as int
        } else {
            maximum - deleted
        }) <= maximum,
{
}

/// Retention is managed from the system tenant only.
pub fn ensure_system_tenant(tenant_id: &str) -> (r: AppResult<()>)
    ensures
        r is Ok <==> tenant_id@ == SYSTEM_TENANT_ID@,
        r is Err ==> r->Err_0 is Authorization,
{
    if str_eq(tenant_id, SYSTEM_TENANT_ID) {
        Ok(())
    } else {
        Err(AppError::Authorization(owned("数据保留只允许系统租户访问")))
    }
}

/// A cut-off as reported: the resource's name and the instant before which its records are due.
pub struct DataRetentionCutoffVo {
    pub resource: String,
    pub before: i64,
}

/// The retention overview at an instant: the policy and every cut-off.
pub struct DataRetentionOverview {
    pub calculated_at: i64,
    pub policy: DataRetentionPolicy,
    pub cutoffs: Vec<DataRetentionCutoffVo>,
}

pub const CUTOFF_USER_IMPORT_ARTIFACTS: &'static str = "user_import_artifacts";
pub const CUTOFF_TENANT_CONFIG_PACKAGES: &'static str = "tenant_config_packages";
pub const CUTOFF_TENANT_CONFIG_SNAPSHOTS: &'static str = "tenant_config_snapshots";

/// The overview at `now`: the cut-offs of the cleaned resources as given (`resource_cutoffs`,
/// named by their resources), then import artifacts at their own cut-off, and configuration
/// packages and snapshots at `now` itself, since their expiry is stored with them.
pub fn overview_at(
    config: &DataRetentionConfig,
    tenant_config: &TenantConfigTransferConfig,
    resource_cutoffs: Vec<DataRetentionCutoffVo>,
    now: i64,
) -> (r: DataRetentionOverview)
    requires
        cutoff_safe(now),
    ensures
        r.calculated_at == now,
        r.policy == policy_of(*config, *tenant_config),
        r.cutoffs@.len() == resource_cutoffs@.len() + 3,
        forall|i: int| 0 <= i < resource_cutoffs@.len() ==> #[trigger] r.cutoffs@[i] == resource_cutoffs@[i],
        r.cutoffs@[resource_cutoffs@.len() as int].resource@ == CUTOFF_USER_IMPORT_ARTIFACTS@,
        r.cutoffs@[resource_cutoffs@.len() as int].before == now - config.user_import_artifact_hours * MILLIS_PER_HOUR,
        r.cutoffs@[resource_cutoffs@.len() + 1int].resource@ == CUTOFF_TENANT_CONFIG_PACKAGES@,
        r.cutoffs@[resource_cutoffs@.len() + 1int].before == now,
        r.cutoffs@[resource_cutoffs@.len() + 2int].resource@ == CUTOFF_TENANT_CONFIG_SNAPSHOTS@,
        r.cutoffs@[resource_cutoffs@.len() + 2int].before == now,
{
    let mut cutoffs = resource_cutoffs;
    cutoffs.push(DataRetentionCutoffVo {
        resource: owned(CUTOFF_USER_IMPORT_ARTIFACTS),
        before: import_artifact_cutoff(config, now),
    });
    cutoffs.push(DataRetentionCutoffVo { resource: owned(CUTOFF_TENANT_CONFIG_PACKAGES), before: now });
    cutoffs.push(DataRetentionCutoffVo { resource: owned(CUTOFF_TENANT_CONFIG_SNAPSHOTS), before: now });
    DataRetentionOverview {
        calculated_at: now,
        policy: DataRetentionPolicy::from_configs(config, tenant_config),
        cutoffs,
    }
}

/// A stored retention run. Its count objects and policy snapshot are kept as JSON text;
/// times are Unix milliseconds.
pub struct StoredRetentionRun {
    pub id: i64,
    pub background_job_id: i64,
    pub trigger_kind: String,
    pub status: String,
    pub policy_snapshot: String,
    pub eligible_counts: String,
    pub deleted_counts: String,
    pub remaining_counts: String,
    pub requested_by: Option<i64>,
    pub error_summary: Option<String>,
    pub started_at: Option<i64>,
    pub completed_at: Option<i64>,
    pub created_at: i64,
    pub updated_at: i64,
}

/// A retention run as listed, its ids in decimal.
pub struct DataRetentionRunVo {
    pub id: String,
    pub background_job_id: String,
    pub trigger_kind: String,
    pub status: String,
    pub policy_snapshot: String,
    pub eligible_counts: String,
    pub deleted_counts: String,
    pub remaining_counts: String,
    pub requested_by: Option<String>,
    pub error_summary: Option<String>,
    pub started_at: Option<i64>,
    pub completed_at: Option<i64>,
    pub created_at: i64,
    pub updated_at: i64,
}

/// The listing view of a retention run.
pub fn data_retention_run_vo(run: StoredRetentionRun) -> (r: DataRetentionRunVo)
    ensures
        r.id@ == signed_decimal(run.id as int),
        r.background_job_id@ == signed_decimal(run.background_job_id as int),
        r.trigger_kind == run.trigger_kind,
        r.status == run.status,
        r.policy_snapshot == run.policy_snapshot,
        r.eligible_counts == run.eligible_counts,
        r.deleted_counts == run.deleted_counts,
        r.remaining_counts == run.remaining_counts,
        opt_string_view(r.requested_by) == opt_id_text(run.requested_by),
        r.error_summary == run.error_summary,
        r.started_at == run.started_at,
        r.completed_at == run.completed_at,
        r.created_at == run.created_at,
        r.updated_at == run.updated_at,
{
    DataRetentionRunVo {
        id: id_text(run.id),
        background_job_id: id_text(run.background_job_id),
        trigger_kind: run.trigger_kind,
        status: run.status,
        policy_snapshot: run.policy_snapshot,
        eligible_counts: run.eligible_counts,
        deleted_counts: run.deleted_counts,
        remaining_counts: run.remaining_counts,
        requested_by: opt_id(run.requested_by),
        error_summary: run.error_summary,
        started_at: run.started_at,
        completed_at: run.completed_at,
        created_at: run.created_at,
        updated_at: run.updated_at,
    }
}

pub const RUN_STATUS_PENDING: &'static str = "pending";

/// A new retention run, queued as background job `background_job_id`: pending, with empty
/// policy snapshot and counts, not started, created and updated at `now`.
pub fn new_run_record(id: i64, background_job_id: i64, trigger_kind: &str, requested_by: Option<i64>, now: i64) -> (r: StoredRetentionRun)
    ensures
        r.id == id,
        r.background_job_id == background_job_id,
        r.trigger_kind@ == trigger_kind@,
        r.status@ == RUN_STATUS_PENDING@,
        r.policy_snapshot@ == "{}"@,
        r.eligible_counts@ == "{}"@,
        r.deleted_counts@ == "{}"@,
        r.remaining_counts@ == "{}"@,
        r.requested_by == requested_by,
        r.error_summary is None,
        r.started_at is None,
        r.completed_at is None,
        r.created_at == now,
        r.updated_at == now,
{
    StoredRetentionRun {
        id,
        background_job_id,
        trigger_kind: owned(trigger_kind),
        status: owned(RUN_STATUS_PENDING),
        policy_snapshot: owned("{}"),
        eligible_counts: owned("{}"),
        deleted_counts: owned("{}"),
        remaining_counts: owned("{}"),
        requested_by,
        error_summary: None,
        started_at: None,
        completed_at: None,
        created_at: now,
        updated_at: now,
    }
}

/// How many characters of an error a run keeps as its summary.
pub const ERROR_SUMMARY_MAX_CHARS: usize = 500;

/// The summary a failed run records of its error: the error's text (as the error renders
/// itself) cut to its first 500 characters.
pub fn safe_error_summary(error_text: &str) -> (r: String)
    ensures
        r@ == if error_text@.len() <= ERROR_SUMMARY_MAX_CHARS {
            error_text@
        } else {
            error_text@.take(ERROR_SUMMARY_MAX_CHARS as int)
        },
{
    let chars = chars_of(error_text);
    let end = if chars.len() <= ERROR_SUMMARY_MAX_CHARS {
        chars.len()
    } else {
        ERROR_SUMMARY_MAX_CHARS
    };
    let r = string_from_range(chars.as_slice(), 0, end);
    proof {
        if chars@.len() <= ERROR_SUMMARY_MAX_CHARS {
            assert(chars@.subrange(0, end as int) =~= chars@);
        } else {
            assert(chars@.subrange(0, end as int) =~= chars@.take(ERROR_SUMMARY_MAX_CHARS as int));
        }
    }
    r
}

pub const RUN_STATUS_FAILED: &'static str = "failed";

/// `after` is `run` with only its outcome fields changed.
pub open spec fn same_run_apart_from_outcome(run: StoredRetentionRun, after: StoredRetentionRun) -> bool {
    &&& after.id == run.id
    &&& after.background_job_id == run.background_job_id
    &&& after.trigger_kind == run.trigger_kind
    &&& after.policy_snapshot == run.policy_snapshot
    &&& after.eligible_counts == run.eligible_counts
    &&& after.deleted_counts == run.deleted_counts
    &&& after.remaining_counts == run.remaining_counts
    &&& after.requested_by == run.requested_by
    &&& after.started_at == run.started_at
    &&& after.created_at == run.created_at
}

/// A cleanup step failed: the run stops there, failed, with the summary of the error, completed
/// and updated at `now`; what it deleted so far stays recorded.
pub fn record_run_failure(run: StoredRetentionRun, error_text: &str, now: i64) -> (r: StoredRetentionRun)
    ensures
        same_run_apart_from_outcome(run, r),
        r.status@ == RUN_STATUS_FAILED@,
        r.error_summary matches Some(e) && e@ == (if error_text@.len() <= ERROR_SUMMARY_MAX_CHARS {
            error_text@
        } else {
            error_text@.take(ERROR_SUMMARY_MAX_CHARS as int)
        }),
        r.updated_at == now,
        r.completed_at == Some(now),
{
    let mut run = run;
    run.status = owned(RUN_STATUS_FAILED);
    run.error_summary = Some(safe_error_summary(error_text));
    run.updated_at = now;
    run.completed_at = Some(now);
    run
}

/// Every cleanup step ran: the run is partial when some resource still has due rows (the
/// counts `remaining`), else succeeded, completed and updated at `now`.
pub fn record_run_completion(run: StoredRetentionRun, remaining: &[u64], now: i64) -> (r: StoredRetentionRun)
    ensures
        same_run_apart_from_outcome(run, r),
        r.error_summary == run.error_summary,
        r.status@ == if exists|i: int| 0 <= i < remaining@.len() && remaining@[i] > 0 {
            RUN_STATUS_PARTIAL@
        } else {
            RUN_STATUS_SUCCEEDED@
        },
        r.updated_at == now,
        r.completed_at == Some(now),
{
    let mut run = run;
    run.status = owned(finished_run_status(remaining));
    run.updated_at = now;
    run.completed_at = Some(now);
    run
}

/// The background job that a manual retention run is queued as: the run's job type, queued
/// at `now` with priority -20, at most 20 attempts of 900 s each, de-duplicated by the request's
/// idempotency-key hash, and carrying the proposed run id, the manual trigger and the requester.
pub struct ManualRunJob {
    pub job_type: String,
    pub available_at: i64,
    pub priority: i32,
    pub max_attempts: i32,
    pub max_runtime_seconds: i32,
    pub dedupe_key: String,
    pub run_id: String,
    pub trigger_kind: String,
    pub requested_by: String,
}

pub const MANUAL_RUN_PRIORITY: i32 = -20;
pub const MANUAL_RUN_MAX_ATTEMPTS: i32 = 20;
pub const MANUAL_RUN_MAX_RUNTIME_SECONDS: i32 = 900;

/// The job of a manual run requested under an idempotency key whose hash is
/// `idempotency_key_hash`: refused unless the hash is 64 bytes long.
pub fn manual_run_job(idempotency_key_hash: &str, proposed_run_id: i64, requested_by: i64, now: i64) -> (r: AppResult<ManualRunJob>)
    ensures
        r is Ok <==> utf8_len(idempotency_key_hash@) == 64,
        r is Err ==> r->Err_0 is Validation,
        r matches Ok(j) ==> {
            &&& j.job_type@ == DATA_RETENTION_JOB_TYPE@
            &&& j.available_at == now
            &&& j.priority == MANUAL_RUN_PRIORITY
            &&& j.max_attempts == MANUAL_RUN_MAX_ATTEMPTS
            &&& j.max_runtime_seconds == MANUAL_RUN_MAX_RUNTIME_SECONDS
            &&& j.dedupe_key@ == "manual:"@ + idempotency_key_hash@
            &&& j.run_id@ == signed_decimal(proposed_run_id as int)
            &&& j.trigger_kind@ == TRIGGER_MANUAL@
            &&& j.requested_by@ == signed_decimal(requested_by as int)
        },
{
    if byte_len(idempotency_key_hash) != 64 {
        return Err(AppError::Validation(owned("Idempotency-Key 摘要无效")));
    }
    let mut dedupe_key = owned("manual:");
    push_str(&mut dedupe_key, idempotency_key_hash);
    Ok(ManualRunJob {
        job_type: owned(DATA_RETENTION_JOB_TYPE),
        available_at: now,
        priority: MANUAL_RUN_PRIORITY,
        max_attempts: MANUAL_RUN_MAX_ATTEMPTS,
        max_runtime_seconds: MANUAL_RUN_MAX_RUNTIME_SECONDS,
        dedupe_key,
        run_id: id_text(proposed_run_id),
        trigger_kind: owned(TRIGGER_MANUAL),
        requested_by: id_text(requested_by),
    })
}

} // verus!

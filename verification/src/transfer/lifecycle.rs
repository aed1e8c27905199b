//! The lifecycle of a configuration transfer: which operation may start in which state, how a
//! queued job is admitted, and how the plan's items record their outcome.
use vstd::prelude::*;

use crate::error::{AppError, AppResult};
use crate::text::{owned, str_eq};

verus! {

pub const TENANT_CONFIG_EXPORT_JOB_TYPE: &'static str = "system.tenant_config.export";
pub const TENANT_CONFIG_PREVIEW_JOB_TYPE: &'static str = "system.tenant_config.preview";
pub const TENANT_CONFIG_APPLY_JOB_TYPE: &'static str = "system.tenant_config.apply";
pub const TENANT_CONFIG_ROLLBACK_JOB_TYPE: &'static str = "system.tenant_config.rollback";
pub const REQUEST_KIND_UPLOAD: &'static str = "upload";
pub const REQUEST_KIND_FROM_PACKAGE: &'static str = "from_package";
/// How often a transfer job may be attempted.
pub const MAX_ATTEMPTS: i32 = 3;

/// Where a transfer stands.
#[derive(Debug, Clone, Copy, PartialEq, Eq, Structural)]
pub enum TransferStatus {
    PreviewReady,
    PreviewPending,
    Previewing,
    Previewed,
    ApplyPending,
    Applying,
    Applied,
    RollbackPending,
    RollingBack,
    RolledBack,
    Failed,
}

impl TransferStatus {
    /// The stored name of the status.
    pub fn as_str(self) -> (r: &'static str)
        ensures
            r@ == spec_status_name(self),
    {
        match self {
            TransferStatus::PreviewReady => "preview_ready",
            TransferStatus::PreviewPending => "preview_pending",
            TransferStatus::Previewing => "previewing",
            TransferStatus::Previewed => "previewed",
            TransferStatus::ApplyPending => "apply_pending",
            TransferStatus::Applying => "applying",
            TransferStatus::Applied => "applied",
            TransferStatus::RollbackPending => "rollback_pending",
            TransferStatus::RollingBack => "rolling_back",
            TransferStatus::RolledBack => "rolled_back",
            TransferStatus::Failed => "failed",
        }
    }
}

pub open spec fn spec_status_name(s: TransferStatus) -> Seq<char> {
    match s {
        TransferStatus::PreviewReady => "preview_ready"@,
        TransferStatus::PreviewPending => "preview_pending"@,
        TransferStatus::Previewing => "previewing"@,
        TransferStatus::Previewed => "previewed"@,
        TransferStatus::ApplyPending => "apply_pending"@,
        TransferStatus::Applying => "applying"@,
        TransferStatus::Applied => "applied"@,
        TransferStatus::RollbackPending => "rollback_pending"@,
        TransferStatus::RollingBack => "rolling_back"@,
        TransferStatus::RolledBack => "rolled_back"@,
        TransferStatus::Failed => "failed"@,
    }
}

/// What an apply request asks for: the previewed plan against the previewed target versions.
pub struct ApplyTenantConfigTransferCommand {
    pub plan_hash: String,
    pub target_configuration_version: i64,
    pub target_authorization_epoch: i32,
    pub idempotency_key_hash: String,
}

/// An operation requested on a transfer.
pub enum TransferOperationRequest {
    Preview,
    Apply(ApplyTenantConfigTransferCommand),
    Rollback,
}

/// The kind of background job that carries out an operation.
#[derive(Debug, Clone, Copy, PartialEq, Eq, Structural)]
pub enum TransferJobKind {
    Preview,
    Apply,
    Rollback,
}

pub open spec fn op_kind(op: TransferOperationRequest) -> TransferJobKind {
    match op {
        TransferOperationRequest::Preview => TransferJobKind::Preview,
        TransferOperationRequest::Apply(_) => TransferJobKind::Apply,
        TransferOperationRequest::Rollback => TransferJobKind::Rollback,
    }
}

/// The background-job type of a kind.
pub fn job_type(kind: TransferJobKind) -> (r: &'static str)
    ensures
        r@ == match kind {
            TransferJobKind::Preview => TENANT_CONFIG_PREVIEW_JOB_TYPE@,
            TransferJobKind::Apply => TENANT_CONFIG_APPLY_JOB_TYPE@,
            TransferJobKind::Rollback => TENANT_CONFIG_ROLLBACK_JOB_TYPE@,
        },
{
    match kind {
        TransferJobKind::Preview => TENANT_CONFIG_PREVIEW_JOB_TYPE,
        TransferJobKind::Apply => TENANT_CONFIG_APPLY_JOB_TYPE,
        TransferJobKind::Rollback => TENANT_CONFIG_ROLLBACK_JOB_TYPE,
    }
}

/// The part of a transfer record that its lifecycle reads and writes. Times are Unix
/// milliseconds.
pub struct TransferState {
    pub status: TransferStatus,
    pub requested_by: i64,
    pub target_configuration_version: i64,
    pub target_authorization_epoch: i32,
    pub plan_hash: Option<String>,
    pub preview_calculated_at: Option<i64>,
    pub preview_background_job_id: Option<i64>,
    pub apply_background_job_id: Option<i64>,
    pub rollback_background_job_id: Option<i64>,
    pub error_summary: Option<String>,
    pub updated_at: i64,
    /// The package of the state before the apply, kept to roll it back.
    pub snapshot_file_id: Option<i64>,
    /// The target versions that the last apply or rollback produced.
    pub applied_configuration_version: Option<i64>,
    pub applied_authorization_epoch: Option<i32>,
    /// Until when an applied transfer may be rolled back.
    pub rollback_expires_at: Option<i64>,
}

/// A new transfer: ready to preview against the given target versions, with no jobs.
pub fn new_transfer_state(requested_by: i64, configuration_version: i64, authorization_epoch: i32, now: i64) -> (r: TransferState)
    ensures
        r == (TransferState {
            status: TransferStatus::PreviewReady,
            requested_by,
            target_configuration_version: configuration_version,
            target_authorization_epoch: authorization_epoch,
            plan_hash: None,
            preview_calculated_at: None,
            preview_background_job_id: None,
            apply_background_job_id: None,
            rollback_background_job_id: None,
            error_summary: None,
            updated_at: now,
            snapshot_file_id: None,
            applied_configuration_version: None,
            applied_authorization_epoch: None,
            rollback_expires_at: None,
        }),
{
    TransferState {
        status: TransferStatus::PreviewReady,
        requested_by,
        target_configuration_version: configuration_version,
        target_authorization_epoch: authorization_epoch,
        plan_hash: None,
        preview_calculated_at: None,
        preview_background_job_id: None,
        apply_background_job_id: None,
        rollback_background_job_id: None,
        error_summary: None,
        updated_at: now,
        snapshot_file_id: None,
        applied_configuration_version: None,
        applied_authorization_epoch: None,
        rollback_expires_at: None,
    }
}

/// Only the user who created a transfer may operate it.
pub fn ensure_requester(state: &TransferState, user_id: i64) -> (r: AppResult<()>)
    ensures
        r is Ok <==> state.requested_by == user_id,
        r is Err ==> r->Err_0 is Authorization,
{
    if state.requested_by != user_id {
        return Err(AppError::Authorization(owned("只能操作本人创建的配置迁移")));
    }
    Ok(())
}

/// A preview may start from `preview_ready`, `previewed` or `failed`; an apply only from
/// `previewed`; a rollback only from `applied`.
pub open spec fn operation_allowed(status: TransferStatus, kind: TransferJobKind) -> bool {
    match kind {
        TransferJobKind::Preview => status == TransferStatus::PreviewReady || status == TransferStatus::Previewed
            || status == TransferStatus::Failed,
        TransferJobKind::Apply => status == TransferStatus::Previewed,
        TransferJobKind::Rollback => status == TransferStatus::Applied,
    }
}

pub fn validate_operation_request(state: &TransferState, operation: &TransferOperationRequest) -> (r: AppResult<()>)
    ensures
        r is Ok <==> operation_allowed(state.status, op_kind(*operation)),
        r is Err ==> r->Err_0 is Conflict,
{
    let valid = match operation {
        TransferOperationRequest::Preview => state.status == TransferStatus::PreviewReady || state.status
            == TransferStatus::Previewed || state.status == TransferStatus::Failed,
        TransferOperationRequest::Apply(_) => state.status == TransferStatus::Previewed,
        TransferOperationRequest::Rollback => state.status == TransferStatus::Applied,
    };
    if valid {
        Ok(())
    } else {
        Err(AppError::Conflict(owned("配置迁移当前状态不允许执行该操作")))
    }
}

/// An apply command matches the transfer's previewed plan and target versions.
pub open spec fn apply_matches(state: TransferState, command: ApplyTenantConfigTransferCommand) -> bool {
    &&& state.plan_hash matches Some(h) && h@ == command.plan_hash@
    &&& state.target_configuration_version == command.target_configuration_version
    &&& state.target_authorization_epoch == command.target_authorization_epoch
}

fn plan_matches(state: &TransferState, command: &ApplyTenantConfigTransferCommand) -> (r: bool)
    ensures
        r == apply_matches(*state, *command),
{
    let same_hash = match &state.plan_hash {
        Some(h) => str_eq(h.as_str(), command.plan_hash.as_str()),
        None => false,
    };
    same_hash && state.target_configuration_version == command.target_configuration_version
        && state.target_authorization_epoch == command.target_authorization_epoch
}

/// A replayed apply must repeat the original command; other replays always match.
pub fn validate_operation_replay_identity(state: &TransferState, operation: &TransferOperationRequest) -> (r: AppResult<()>)
    ensures
        r is Ok <==> match *operation {
            TransferOperationRequest::Apply(c) => apply_matches(*state, c),
            _ => true,
        },
        r is Err ==> r->Err_0 is Conflict,
{
    match operation {
        TransferOperationRequest::Apply(command) => {
            if !plan_matches(state, command) {
                return Err(AppError::Conflict(owned("Idempotency-Key 已用于其他配置应用请求")));
            }
            Ok(())
        },
        _ => Ok(()),
    }
}

pub open spec fn spec_job_of(state: TransferState, kind: TransferJobKind) -> Option<i64> {
    match kind {
        TransferJobKind::Preview => state.preview_background_job_id,
        TransferJobKind::Apply => state.apply_background_job_id,
        TransferJobKind::Rollback => state.rollback_background_job_id,
    }
}

/// The job the transfer records for the operation's kind.
pub fn operation_job_id(state: &TransferState, operation: &TransferOperationRequest) -> (r: Option<i64>)
    ensures
        r == spec_job_of(*state, op_kind(*operation)),
{
    match operation {
        TransferOperationRequest::Preview => state.preview_background_job_id,
        TransferOperationRequest::Apply(_) => state.apply_background_job_id,
        TransferOperationRequest::Rollback => state.rollback_background_job_id,
    }
}

/// What to do once the job queue has answered an operation request.
#[derive(Debug, Clone, Copy, PartialEq, Eq, Structural)]
pub enum EnqueueStep {
    /// The request repeats one already queued: answer with the transfer as it is.
    Replay,
    /// A new job was queued: start the operation.
    Proceed,
}

/// Decides on the queue's answer: a job that was already there is a replay when it is the
/// transfer's job for this kind (and, for an apply, the same command), otherwise its key was
/// used by another request; a new job may start only when the status allows the operation.
pub fn check_enqueued(state: &TransferState, operation: &TransferOperationRequest, job_id: i64, inserted: bool) -> (r: AppResult<EnqueueStep>)
    ensures
        !inserted ==> (r == Ok::<EnqueueStep, AppError>(EnqueueStep::Replay) <==> spec_job_of(*state, op_kind(*operation)) == Some(job_id)
            && match *operation {
            TransferOperationRequest::Apply(c) => apply_matches(*state, c),
            _ => true,
        }),
        !inserted ==> (r is Err ==> r->Err_0 is Conflict),
        !inserted ==> !(r == Ok::<EnqueueStep, AppError>(EnqueueStep::Proceed)),
        inserted ==> (r == Ok::<EnqueueStep, AppError>(EnqueueStep::Proceed) <==> operation_allowed(state.status, op_kind(*operation))),
        inserted ==> (r is Err ==> r->Err_0 is Conflict),
        inserted ==> !(r == Ok::<EnqueueStep, AppError>(EnqueueStep::Replay)),
{
    if !inserted {
        if operation_job_id(state, operation) == Some(job_id) {
            validate_operation_replay_identity(state, operation)?;
            return Ok(EnqueueStep::Replay);
        }
        return Err(AppError::Conflict(owned("幂等键已被其他配置迁移操作使用")));
    }
    validate_operation_request(state, operation)?;
    Ok(EnqueueStep::Proceed)
}

/// The other kinds' jobs, which a new operation may supersede when they are dead.
pub fn superseded_job_candidates(state: &TransferState, operation: &TransferOperationRequest) -> (r: Vec<i64>)
    ensures
        r@ == match *operation {
            TransferOperationRequest::Preview => opt_seq(state.apply_background_job_id) + opt_seq(state.rollback_background_job_id),
            TransferOperationRequest::Apply(_) => opt_seq(state.preview_background_job_id) + opt_seq(state.rollback_background_job_id),
            TransferOperationRequest::Rollback => opt_seq(state.preview_background_job_id) + opt_seq(state.apply_background_job_id),
        },
{
    let (a, b) = match operation {
        TransferOperationRequest::Preview => (state.apply_background_job_id, state.rollback_background_job_id),
        TransferOperationRequest::Apply(_) => (state.preview_background_job_id, state.rollback_background_job_id),
        TransferOperationRequest::Rollback => (state.preview_background_job_id, state.apply_background_job_id),
    };
    let mut r: Vec<i64> = Vec::new();
    match a {
        Some(x) => {
            r.push(x);
        },
        None => {},
    }
    match b {
        Some(x) => {
            r.push(x);
        },
        None => {},
    }
    assert(r@ =~= opt_seq(a) + opt_seq(b));
    r
}

pub open spec fn opt_seq(o: Option<i64>) -> Seq<i64> {
    match o {
        Some(x) => seq![x],
        None => Seq::empty(),
    }
}

/// A job pointer survives unless it names a dead job.
pub open spec fn cleared(job: Option<i64>, dead: Seq<i64>) -> Option<i64> {
    match job {
        Some(j) => if dead.contains(j) { None } else { job },
        None => None,
    }
}

fn clear_if_dead(job: Option<i64>, dead: &[i64]) -> (r: Option<i64>)
    ensures
        r == cleared(job, dead@),
{
    match job {
        Some(j) => {
            let mut i: usize = 0;
            while i < dead.len()
                invariant
                    job == Some(j),
                    i <= dead.len(),
                    forall|k: int| 0 <= k < i ==> dead@[k] != j,
                decreases dead.len() - i,
            {
                if dead[i] == j {
                    assert(dead@.contains(j));
                    return None;
                }
                i = i + 1;
            }
            job
        },
        None => None,
    }
}

/// The transfer once an operation with job `job_id` has started at `now`; dead jobs of other
/// kinds are forgotten. `None` when an apply no longer matches the previewed plan.
pub open spec fn spec_begin_operation(
    state: TransferState,
    operation: TransferOperationRequest,
    job_id: i64,
    dead: Seq<i64>,
    now: i64,
) -> Option<TransferState> {
    match operation {
        TransferOperationRequest::Preview => Some(TransferState {
            status: TransferStatus::PreviewPending,
            preview_background_job_id: Some(job_id),
            apply_background_job_id: cleared(state.apply_background_job_id, dead),
            rollback_background_job_id: cleared(state.rollback_background_job_id, dead),
            preview_calculated_at: None,
            plan_hash: None,
            error_summary: None,
            updated_at: now,
            ..state
        }),
        TransferOperationRequest::Apply(c) => if apply_matches(state, c) {
            Some(TransferState {
                status: TransferStatus::ApplyPending,
                preview_background_job_id: cleared(state.preview_background_job_id, dead),
                apply_background_job_id: Some(job_id),
                rollback_background_job_id: cleared(state.rollback_background_job_id, dead),
                error_summary: None,
                updated_at: now,
                ..state
            })
        } else {
            None
        },
        TransferOperationRequest::Rollback => Some(TransferState {
            status: TransferStatus::RollbackPending,
            preview_background_job_id: cleared(state.preview_background_job_id, dead),
            apply_background_job_id: cleared(state.apply_background_job_id, dead),
            rollback_background_job_id: Some(job_id),
            error_summary: None,
            updated_at: now,
            ..state
        }),
    }
}

/// Starts an operation whose new job `job_id` was queued; `dead_job_ids` are the candidate
/// jobs (see `superseded_job_candidates`) that the queue reports dead. An apply whose command
/// no longer matches the preview is a conflict.
pub fn begin_operation(state: TransferState, operation: &TransferOperationRequest, job_id: i64, dead_job_ids: &[i64], now: i64) -> (r: AppResult<TransferState>)
    ensures
        match spec_begin_operation(state, *operation, job_id, dead_job_ids@, now) {
            Some(s) => r == Ok::<TransferState, AppError>(s),
            None => r is Err && r->Err_0 is Conflict,
        },
{
    let TransferState {
        status,
        requested_by,
        target_configuration_version,
        target_authorization_epoch,
        plan_hash,
        preview_calculated_at,
        preview_background_job_id,
        apply_background_job_id,
        rollback_background_job_id,
        error_summary,
        updated_at,
        snapshot_file_id,
        applied_configuration_version,
        applied_authorization_epoch,
        rollback_expires_at,
    } = state;
    match operation {
        TransferOperationRequest::Preview => Ok(TransferState {
            status: TransferStatus::PreviewPending,
            requested_by,
            target_configuration_version,
            target_authorization_epoch,
            plan_hash: None,
            preview_calculated_at: None,
            preview_background_job_id: Some(job_id),
            apply_background_job_id: clear_if_dead(apply_background_job_id, dead_job_ids),
            rollback_background_job_id: clear_if_dead(rollback_background_job_id, dead_job_ids),
            error_summary: None,
            updated_at: now,
            snapshot_file_id,
            applied_configuration_version,
            applied_authorization_epoch,
            rollback_expires_at,
        }),
        TransferOperationRequest::Apply(command) => {
            let same_hash = match &plan_hash {
                Some(h) => str_eq(h.as_str(), command.plan_hash.as_str()),
                None => false,
            };
            if !same_hash || target_configuration_version != command.target_configuration_version
                || target_authorization_epoch != command.target_authorization_epoch {
                return Err(AppError::Conflict(owned("预览结果已失效，请重新预览")));
            }
            Ok(TransferState {
                status: TransferStatus::ApplyPending,
                requested_by,
                target_configuration_version,
                target_authorization_epoch,
                plan_hash,
                preview_calculated_at,
                preview_background_job_id: clear_if_dead(preview_background_job_id, dead_job_ids),
                apply_background_job_id: Some(job_id),
                rollback_background_job_id: clear_if_dead(rollback_background_job_id, dead_job_ids),
                error_summary: None,
                updated_at: now,
                snapshot_file_id,
                applied_configuration_version,
                applied_authorization_epoch,
                rollback_expires_at,
            })
        },
        TransferOperationRequest::Rollback => Ok(TransferState {
            status: TransferStatus::RollbackPending,
            requested_by,
            target_configuration_version,
            target_authorization_epoch,
            plan_hash,
            preview_calculated_at,
            preview_background_job_id: clear_if_dead(preview_background_job_id, dead_job_ids),
            apply_background_job_id: clear_if_dead(apply_background_job_id, dead_job_ids),
            rollback_background_job_id: Some(job_id),
            error_summary: None,
            updated_at: now,
            snapshot_file_id,
            applied_configuration_version,
            applied_authorization_epoch,
            rollback_expires_at,
        }),
    }
}

/// The status a job of `kind` moves the transfer to when it starts, if it is still the
/// transfer's current job of that kind and the transfer waits for (or already runs) it.
pub open spec fn spec_running_status(state: TransferState, kind: TransferJobKind, job_id: i64) -> Option<TransferStatus> {
    match kind {
        TransferJobKind::Preview => if state.preview_background_job_id == Some(job_id) && (state.status
            == TransferStatus::PreviewPending || state.status == TransferStatus::Previewing) {
            Some(TransferStatus::Previewing)
        } else {
            None
        },
        TransferJobKind::Apply => if state.apply_background_job_id == Some(job_id) && (state.status
            == TransferStatus::ApplyPending || state.status == TransferStatus::Applying) {
            Some(TransferStatus::Applying)
        } else {
            None
        },
        TransferJobKind::Rollback => if state.rollback_background_job_id == Some(job_id) && (state.status
            == TransferStatus::RollbackPending || state.status == TransferStatus::RollingBack) {
            Some(TransferStatus::RollingBack)
        } else {
            None
        },
    }
}

/// Admits a starting job: it moves the transfer to the running status of its kind, or is
/// refused as superseded by a newer operation.
pub fn mark_running(state: TransferState, kind: TransferJobKind, job_id: i64, now: i64) -> (r: AppResult<TransferState>)
    ensures
        match spec_running_status(state, kind, job_id) {
            Some(st) => r == Ok::<TransferState, AppError>(TransferState { status: st, updated_at: now, ..state }),
            None => r is Err && r->Err_0 is Conflict,
        },
{
    let next = match kind {
        TransferJobKind::Preview => {
            if state.preview_background_job_id == Some(job_id) && (state.status == TransferStatus::PreviewPending
                || state.status == TransferStatus::Previewing) {
                Some(TransferStatus::Previewing)
            } else {
                None
            }
        },
        TransferJobKind::Apply => {
            if state.apply_background_job_id == Some(job_id) && (state.status == TransferStatus::ApplyPending
                || state.status == TransferStatus::Applying) {
                Some(TransferStatus::Applying)
            } else {
                None
            }
        },
        TransferJobKind::Rollback => {
            if state.rollback_background_job_id == Some(job_id) && (state.status == TransferStatus::RollbackPending
                || state.status == TransferStatus::RollingBack) {
                Some(TransferStatus::RollingBack)
            } else {
                None
            }
        },
    };
    match next {
        Some(st) => Ok(TransferState { status: st, updated_at: now, ..state }),
        None => Err(AppError::Conflict(owned("配置迁移任务已被更新的操作取代"))),
    }
}

/// A package can be transferred once it was built successfully and while it has not expired.
pub fn ensure_bundle_available(bundle_succeeded: bool, expires_at: Option<i64>, now: i64) -> (r: AppResult<()>)
    ensures
        r is Ok <==> bundle_succeeded && !(expires_at matches Some(e) && e <= now),
        r is Err ==> r->Err_0 is Conflict,
{
    if !bundle_succeeded {
        return Err(AppError::Conflict(owned("配置包尚未生成成功")));
    }
    match expires_at {
        Some(e) => {
            if e <= now {
                return Err(AppError::Conflict(owned("配置包已经过期")));
            }
        },
        None => {},
    }
    Ok(())
}

/// A transfer found by idempotency key must stem from the same kind of request on the same
/// package.
pub fn ensure_transfer_request_identity(
    transfer_request_kind: &str,
    transfer_request_fingerprint: &str,
    request_kind: &str,
    request_fingerprint: &str,
) -> (r: AppResult<()>)
    ensures
        r is Ok <==> transfer_request_kind@ == request_kind@ && transfer_request_fingerprint@ == request_fingerprint@,
        r is Err ==> r->Err_0 is Conflict,
{
    if str_eq(transfer_request_kind, request_kind) && str_eq(transfer_request_fingerprint, request_fingerprint) {
        Ok(())
    } else {
        Err(AppError::Conflict(owned("Idempotency-Key 已用于其他配置迁移请求")))
    }
}

/// Before applying, the target must still be at the previewed versions and the recomputed
/// plan hash must be the previewed one.
pub fn ensure_preview_identity(
    state: &TransferState,
    configuration_version: i64,
    authorization_epoch: i32,
    expected_plan_hash: &str,
) -> (r: AppResult<()>)
    ensures
        r is Ok <==> state.target_configuration_version == configuration_version && state.target_authorization_epoch
            == authorization_epoch && (state.plan_hash matches Some(h) && h@ == expected_plan_hash@),
        r is Err ==> r->Err_0 is Conflict,
{
    if state.target_configuration_version != configuration_version || state.target_authorization_epoch
        != authorization_epoch {
        return Err(AppError::Conflict(owned("目标配置已经变化，请重新预览")));
    }
    let same = match &state.plan_hash {
        Some(h) => str_eq(h.as_str(), expected_plan_hash),
        None => false,
    };
    if !same {
        return Err(AppError::Conflict(owned("预览计划已经失效，请重新预览")));
    }
    Ok(())
}

// ---------------------------------------------------------------------------
// Laws
// ---------------------------------------------------------------------------
/// The job an operation starts is the one admitted to run: right after `begin_operation`,
/// `mark_running` for that job succeeds and moves the transfer to the running status.
pub proof fn law_started_job_is_admitted(
    state: TransferState,
    operation: TransferOperationRequest,
    job_id: i64,
    dead: Seq<i64>,
    now: i64,
)
    requires
        spec_begin_operation(state, operation, job_id, dead, now) is Some,
    ensures
        spec_running_status(spec_begin_operation(state, operation, job_id, dead, now).unwrap(), op_kind(operation), job_id)
            == Some(match op_kind(operation) {
            TransferJobKind::Preview => TransferStatus::Previewing,
            TransferJobKind::Apply => TransferStatus::Applying,
            TransferJobKind::Rollback => TransferStatus::RollingBack,
        }),
{
}

/// A job replaced by a newer operation of the same kind is refused when it starts.
pub proof fn law_replaced_job_is_refused(
    state: TransferState,
    operation: TransferOperationRequest,
    job_id: i64,
    old_job_id: i64,
    dead: Seq<i64>,
    now: i64,
)
    requires
        spec_begin_operation(state, operation, job_id, dead, now) is Some,
        old_job_id != job_id,
    ensures
        spec_running_status(spec_begin_operation(state, operation, job_id, dead, now).unwrap(), op_kind(operation), old_job_id)
            is None,
{
}

/// Repeating a request whose job was queued is answered as a replay, not as a new operation
/// (for an apply, with the same command).
pub proof fn law_repeated_request_is_replay(
    state: TransferState,
    operation: TransferOperationRequest,
    job_id: i64,
    dead: Seq<i64>,
    now: i64,
)
    requires
        spec_begin_operation(state, operation, job_id, dead, now) is Some,
    ensures
        ({
            let s = spec_begin_operation(state, operation, job_id, dead, now).unwrap();
            &&& spec_job_of(s, op_kind(operation)) == Some(job_id)
            &&& match operation {
                TransferOperationRequest::Apply(c) => apply_matches(s, c),
                _ => true,
            }
        }),
{
}

/// An apply needs a preview first and a rollback needs an applied transfer: a new transfer
/// can only be previewed.
pub proof fn law_new_transfer_only_previews(kind: TransferJobKind)
    ensures
        operation_allowed(TransferStatus::PreviewReady, kind) <==> kind == TransferJobKind::Preview,
{
}

/// A transfer that has an operation queued or running accepts no other operation; a
/// previewed one may be previewed again or applied, never rolled back; an applied one may only
/// be rolled back; a failed one may only be previewed again; a rolled-back one accepts none.
pub proof fn law_operations_follow_the_lifecycle(kind: TransferJobKind)
    ensures
        !operation_allowed(TransferStatus::PreviewPending, kind) && !operation_allowed(TransferStatus::Previewing, kind)
            && !operation_allowed(TransferStatus::ApplyPending, kind) && !operation_allowed(TransferStatus::Applying, kind)
            && !operation_allowed(TransferStatus::RollbackPending, kind) && !operation_allowed(
            TransferStatus::RollingBack,
            kind,
        ),
        operation_allowed(TransferStatus::Previewed, kind) <==> kind != TransferJobKind::Rollback,
        operation_allowed(TransferStatus::Applied, kind) <==> kind == TransferJobKind::Rollback,
        operation_allowed(TransferStatus::Failed, kind) <==> kind == TransferJobKind::Preview,
        !operation_allowed(TransferStatus::RolledBack, kind),
{
}

} // verus!

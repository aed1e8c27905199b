//! The decisions a transfer's background jobs take: whether a job still has work to do, when a
//! recomputed preview may be applied or an apply rolled back, and what the transfer records
//! once an operation has committed.
use vstd::prelude::*;

use crate::error::{AppError, AppResult};
use crate::text::{owned, str_eq};
use crate::transfer::lifecycle::{TransferJobKind, TransferState, TransferStatus, spec_job_of};

verus! {

/// Milliseconds in an hour.
pub const HOUR_MILLIS: i64 = 3_600_000;

/// What a started job has to do.
#[derive(Debug, Clone, Copy, PartialEq, Eq, Structural)]
pub enum JobDisposition {
    /// The transfer names another job of this kind: this one has nothing to do.
    Superseded,
    /// The operation already committed: only the caches need to catch up.
    Finished,
    /// The job carries out its operation.
    Run,
}

pub open spec fn spec_job_disposition(state: TransferState, kind: TransferJobKind, job_id: i64) -> JobDisposition {
    if spec_job_of(state, kind) != Some(job_id) {
        JobDisposition::Superseded
    } else if kind == TransferJobKind::Apply && state.status == TransferStatus::Applied {
        JobDisposition::Finished
    } else if kind == TransferJobKind::Rollback && state.status == TransferStatus::RolledBack {
        JobDisposition::Finished
    } else {
        JobDisposition::Run
    }
}

/// Decides what a job of `kind` with id `job_id` does with the transfer as it finds it.
pub fn job_disposition(state: &TransferState, kind: TransferJobKind, job_id: i64) -> (r: JobDisposition)
    ensures
        r == spec_job_disposition(*state, kind, job_id),
{
    let current = match kind {
        TransferJobKind::Preview => state.preview_background_job_id,
        TransferJobKind::Apply => state.apply_background_job_id,
        TransferJobKind::Rollback => state.rollback_background_job_id,
    };
    if current != Some(job_id) {
        return JobDisposition::Superseded;
    }
    match kind {
        TransferJobKind::Apply => {
            if state.status == TransferStatus::Applied {
                return JobDisposition::Finished;
            }
        },
        TransferJobKind::Rollback => {
            if state.status == TransferStatus::RolledBack {
                return JobDisposition::Finished;
            }
        },
        TransferJobKind::Preview => {},
    }
    JobDisposition::Run
}

/// A preview is written only while its job is still the transfer's preview job and the
/// transfer is previewing; otherwise the result is dropped.
pub fn preview_still_current(state: &TransferState, job_id: i64) -> (r: bool)
    ensures
        r == (state.preview_background_job_id == Some(job_id) && state.status == TransferStatus::Previewing),
{
    state.preview_background_job_id == Some(job_id) && state.status == TransferStatus::Previewing
}

pub open spec fn spec_record_preview(
    state: TransferState,
    configuration_version: i64,
    authorization_epoch: i32,
    plan_hash: String,
    calculated_at: i64,
) -> TransferState {
    TransferState {
        status: TransferStatus::Previewed,
        target_configuration_version: configuration_version,
        target_authorization_epoch: authorization_epoch,
        plan_hash: Some(plan_hash),
        preview_calculated_at: Some(calculated_at),
        error_summary: None,
        updated_at: calculated_at,
        ..state
    }
}

/// The transfer once its preview, computed at `calculated_at` against the given target
/// versions, was stored with hash `plan_hash`.
pub fn record_preview(
    state: TransferState,
    configuration_version: i64,
    authorization_epoch: i32,
    plan_hash: String,
    calculated_at: i64,
) -> (r: TransferState)
    ensures
        r == spec_record_preview(state, configuration_version, authorization_epoch, plan_hash, calculated_at),
{
    TransferState {
        status: TransferStatus::Previewed,
        target_configuration_version: configuration_version,
        target_authorization_epoch: authorization_epoch,
        plan_hash: Some(plan_hash),
        preview_calculated_at: Some(calculated_at),
        error_summary: None,
        updated_at: calculated_at,
        ..state
    }
}

/// The checks an apply makes inside its transaction, in order: its job is still the
/// transfer's apply job and the transfer is applying; the target is at the previewed versions;
/// the recomputed plan has the previewed hash; and it holds no blocked or conflicting item.
pub open spec fn apply_commit_allowed(
    state: TransferState,
    job_id: i64,
    configuration_version: i64,
    authorization_epoch: i32,
    plan_hash: Seq<char>,
    blocked: u64,
    conflicts: u64,
) -> bool {
    &&& state.apply_background_job_id == Some(job_id)
    &&& state.status == TransferStatus::Applying
    &&& state.target_configuration_version == configuration_version
    &&& state.target_authorization_epoch == authorization_epoch
    &&& state.plan_hash matches Some(h) && h@ == plan_hash
    &&& blocked == 0
    &&& conflicts == 0
}

/// Admits the commit of an apply whose plan was recomputed under the tenant's lock, with
/// `blocked` blocked and `conflicts` conflicting items.
pub fn check_apply_commit(
    state: &TransferState,
    job_id: i64,
    configuration_version: i64,
    authorization_epoch: i32,
    plan_hash: &str,
    blocked: u64,
    conflicts: u64,
) -> (r: AppResult<()>)
    ensures
        r is Ok <==> apply_commit_allowed(
            *state,
            job_id,
            configuration_version,
            authorization_epoch,
            plan_hash@,
            blocked,
            conflicts,
        ),
        r is Err ==> r->Err_0 is Conflict,
{
    if state.apply_background_job_id != Some(job_id) || state.status != TransferStatus::Applying {
        return Err(AppError::Conflict(owned("配置应用任务已被替换")));
    }
    if configuration_version != state.target_configuration_version || authorization_epoch
        != state.target_authorization_epoch {
        return Err(AppError::Conflict(owned("目标配置已变化，请重新预览")));
    }
    let same = match &state.plan_hash {
        Some(h) => str_eq(h.as_str(), plan_hash),
        None => false,
    };
    if !same {
        return Err(AppError::Conflict(owned("预览计划哈希已失效")));
    }
    if blocked > 0 || conflicts > 0 {
        return Err(AppError::Conflict(owned("配置计划仍含冲突或阻断项")));
    }
    Ok(())
}

pub open spec fn spec_record_applied(
    state: TransferState,
    snapshot_file_id: i64,
    configuration_version: i64,
    authorization_epoch: i32,
    now: i64,
    rollback_hours: u32,
) -> TransferState {
    TransferState {
        status: TransferStatus::Applied,
        snapshot_file_id: Some(snapshot_file_id),
        applied_configuration_version: Some(configuration_version),
        applied_authorization_epoch: Some(authorization_epoch),
        rollback_expires_at: Some((now + rollback_hours * HOUR_MILLIS) as i64),
        error_summary: None,
        updated_at: now,
        ..state
    }
}

/// The transfer once its apply committed at `now`: it keeps the snapshot taken before the
/// apply, the versions the apply produced, and may be rolled back for `rollback_hours`.
pub fn record_applied(
    state: TransferState,
    snapshot_file_id: i64,
    configuration_version: i64,
    authorization_epoch: i32,
    now: i64,
    rollback_hours: u32,
) -> (r: TransferState)
    requires
        now + rollback_hours * HOUR_MILLIS <= i64::MAX,
    ensures
        r == spec_record_applied(state, snapshot_file_id, configuration_version, authorization_epoch, now, rollback_hours),
{
    assert(0 <= rollback_hours * HOUR_MILLIS <= 4_294_967_295 * HOUR_MILLIS) by (nonlinear_arith)
        requires rollback_hours <= 4_294_967_295u32;
    let window: i64 = (rollback_hours as i64) * HOUR_MILLIS;
    TransferState {
        status: TransferStatus::Applied,
        snapshot_file_id: Some(snapshot_file_id),
        applied_configuration_version: Some(configuration_version),
        applied_authorization_epoch: Some(authorization_epoch),
        rollback_expires_at: Some(now + window),
        error_summary: None,
        updated_at: now,
        ..state
    }
}

/// A rollback is possible while its window is open, and needs the snapshot taken before the
/// apply; the result is that snapshot's file.
pub fn check_rollback_window(state: &TransferState, now: i64) -> (r: AppResult<i64>)
    ensures
        match r {
            Ok(f) => (state.rollback_expires_at matches Some(e) && now < e) && state.snapshot_file_id == Some(f),
            Err(e) => e is Conflict && !((state.rollback_expires_at matches Some(x) && now < x)
                && state.snapshot_file_id is Some),
        },
{
    match state.rollback_expires_at {
        Some(e) => {
            if e <= now {
                return Err(AppError::Conflict(owned("配置回滚窗口已过期")));
            }
        },
        None => {
            return Err(AppError::Conflict(owned("配置回滚窗口已过期")));
        },
    }
    match state.snapshot_file_id {
        Some(f) => Ok(f),
        None => Err(AppError::Conflict(owned("配置回滚快照不存在"))),
    }
}

/// A rollback commits only while its job is the transfer's rollback job and the transfer is
/// rolling back, and only if nothing changed the target since the apply.
pub open spec fn rollback_commit_allowed(
    state: TransferState,
    job_id: i64,
    configuration_version: i64,
    authorization_epoch: i32,
) -> bool {
    &&& state.rollback_background_job_id == Some(job_id)
    &&& state.status == TransferStatus::RollingBack
    &&& state.applied_configuration_version == Some(configuration_version)
    &&& state.applied_authorization_epoch == Some(authorization_epoch)
}

pub fn check_rollback_commit(
    state: &TransferState,
    job_id: i64,
    configuration_version: i64,
    authorization_epoch: i32,
) -> (r: AppResult<()>)
    ensures
        r is Ok <==> rollback_commit_allowed(*state, job_id, configuration_version, authorization_epoch),
        r is Err ==> r->Err_0 is Conflict,
{
    if state.rollback_background_job_id != Some(job_id) || state.status != TransferStatus::RollingBack {
        return Err(AppError::Conflict(owned("配置回滚任务已被替换")));
    }
    if Some(configuration_version) != state.applied_configuration_version || Some(authorization_epoch)
        != state.applied_authorization_epoch {
        return Err(AppError::Conflict(owned("应用完成后配置已被修改，不能自动回滚")));
    }
    Ok(())
}

pub open spec fn spec_record_rolled_back(
    state: TransferState,
    configuration_version: i64,
    authorization_epoch: i32,
    now: i64,
) -> TransferState {
    TransferState {
        status: TransferStatus::RolledBack,
        applied_configuration_version: Some(configuration_version),
        applied_authorization_epoch: Some(authorization_epoch),
        error_summary: None,
        updated_at: now,
        ..state
    }
}

/// The transfer once its rollback committed at `now`, with the versions the rollback produced.
pub fn record_rolled_back(state: TransferState, configuration_version: i64, authorization_epoch: i32, now: i64) -> (r:
    TransferState)
    ensures
        r == spec_record_rolled_back(state, configuration_version, authorization_epoch, now),
{
    TransferState {
        status: TransferStatus::RolledBack,
        applied_configuration_version: Some(configuration_version),
        applied_authorization_epoch: Some(authorization_epoch),
        error_summary: None,
        updated_at: now,
        ..state
    }
}

/// The authorization epoch that a finished operation left, which the caches catch up to.
pub fn committed_epoch(state: &TransferState) -> (r: AppResult<i32>)
    ensures
        match state.applied_authorization_epoch {
            Some(e) => r == Ok::<i32, AppError>(e),
            None => r is Err && r->Err_0 is Conflict,
        },
{
    match state.applied_authorization_epoch {
        Some(e) => Ok(e),
        None => Err(AppError::Conflict(owned("迁移终态缺少授权纪元"))),
    }
}

/// Whether an export job builds its package: `Ok(false)` when the package was already built,
/// a conflict when the bundle names another job.
pub fn export_job_should_run(bundle_job_id: Option<i64>, bundle_succeeded: bool, job_id: i64) -> (r: AppResult<bool>)
    ensures
        bundle_job_id != Some(job_id) ==> r is Err && r->Err_0 is Conflict,
        bundle_job_id == Some(job_id) ==> r == Ok::<bool, AppError>(!bundle_succeeded),
{
    if bundle_job_id != Some(job_id) {
        return Err(AppError::Conflict(owned("配置包导出任务身份不匹配")));
    }
    Ok(!bundle_succeeded)
}

/// A built package is kept for `artifact_hours` after `now`.
pub fn artifact_expires_at(now: i64, artifact_hours: u32) -> (r: i64)
    requires
        now + artifact_hours * HOUR_MILLIS <= i64::MAX,
    ensures
        r == now + artifact_hours * HOUR_MILLIS,
{
    assert(0 <= artifact_hours * HOUR_MILLIS <= 4_294_967_295 * HOUR_MILLIS) by (nonlinear_arith)
        requires artifact_hours <= 4_294_967_295u32;
    now + (artifact_hours as i64) * HOUR_MILLIS
}

// ---------------------------------------------------------------------------
// Laws
// ---------------------------------------------------------------------------
/// A stored preview can be applied with its own hash and versions.
pub proof fn law_preview_is_applicable(
    state: TransferState,
    configuration_version: i64,
    authorization_epoch: i32,
    plan_hash: String,
    calculated_at: i64,
    job_id: i64,
)
    ensures
        ({
            let p = spec_record_preview(state, configuration_version, authorization_epoch, plan_hash, calculated_at);
            let running = TransferState {
                status: TransferStatus::Applying,
                apply_background_job_id: Some(job_id),
                ..p
            };
            apply_commit_allowed(running, job_id, configuration_version, authorization_epoch, plan_hash@, 0, 0)
        }),
{
}

/// An applied transfer can be rolled back, from its snapshot, until its window closes.
pub proof fn law_applied_transfer_rolls_back_within_window(
    state: TransferState,
    snapshot_file_id: i64,
    configuration_version: i64,
    authorization_epoch: i32,
    now: i64,
    rollback_hours: u32,
    later: i64,
)
    requires
        now + rollback_hours * HOUR_MILLIS <= i64::MAX,
    ensures
        ({
            let a = spec_record_applied(state, snapshot_file_id, configuration_version, authorization_epoch, now, rollback_hours);
            &&& crate::transfer::lifecycle::operation_allowed(a.status, TransferJobKind::Rollback)
            &&& (later < now + rollback_hours * HOUR_MILLIS <==> (a.rollback_expires_at matches Some(e) && later < e))
            &&& a.snapshot_file_id == Some(snapshot_file_id)
        }),
{
}

/// Right after an apply committed, nothing has changed the target: a rollback of it commits.
pub proof fn law_untouched_apply_can_be_rolled_back(
    state: TransferState,
    snapshot_file_id: i64,
    configuration_version: i64,
    authorization_epoch: i32,
    now: i64,
    rollback_hours: u32,
    job_id: i64,
)
    requires
        now + rollback_hours * HOUR_MILLIS <= i64::MAX,
    ensures
        ({
            let a = spec_record_applied(state, snapshot_file_id, configuration_version, authorization_epoch, now, rollback_hours);
            let running = TransferState {
                status: TransferStatus::RollingBack,
                rollback_background_job_id: Some(job_id),
                ..a
            };
            rollback_commit_allowed(running, job_id, configuration_version, authorization_epoch)
        }),
{
}

/// A rolled-back transfer is final: no operation may start on it.
pub proof fn law_rolled_back_is_final(
    state: TransferState,
    configuration_version: i64,
    authorization_epoch: i32,
    now: i64,
    kind: TransferJobKind,
)
    ensures
        !crate::transfer::lifecycle::operation_allowed(
            spec_record_rolled_back(state, configuration_version, authorization_epoch, now).status,
            kind,
        ),
{
}

/// A job repeated after its operation committed does not run it again.
pub proof fn law_committed_job_does_not_rerun(
    state: TransferState,
    snapshot_file_id: i64,
    configuration_version: i64,
    authorization_epoch: i32,
    now: i64,
    rollback_hours: u32,
    job_id: i64,
)
    requires
        state.apply_background_job_id == Some(job_id),
    ensures
        spec_job_disposition(
            spec_record_applied(state, snapshot_file_id, configuration_version, authorization_epoch, now, rollback_hours),
            TransferJobKind::Apply,
            job_id,
        ) == JobDisposition::Finished,
        spec_job_disposition(
            spec_record_rolled_back(
                TransferState { rollback_background_job_id: Some(job_id), ..state },
                configuration_version,
                authorization_epoch,
                now,
            ),
            TransferJobKind::Rollback,
            job_id,
        ) == JobDisposition::Finished,
{
}

} // verus!

//! Scheduled jobs: cron validation, new job records, and the job list shown to operators.
use vstd::prelude::*;

use crate::error::{AppError, AppResult};
use crate::strset::lemma_lt_total;
use crate::text::{owned, push_signed_decimal, push_str, seq_lt, signed_decimal, str_eq};
use crate::strset::str_lt;

verus! {

pub const JOB_STATUS_NORMAL: &'static str = "0";
pub const JOB_STATUS_PAUSED: &'static str = "1";
pub const JOB_LOG_STATUS_FAIL: &'static str = "1";
pub const DEFAULT_JOB_GROUP: &'static str = "default";
pub const BUILTIN_JOB_GROUP: &'static str = "system";
pub const DEFAULT_MISFIRE_POLICY: &'static str = "1";
pub const DEFAULT_CONCURRENT: &'static str = "0";

/// Whether the `cron` crate accepts `expr` as a schedule.
pub uninterp spec fn cron_expression_accepted(expr: Seq<char>) -> bool;

/// Wraps `cron::Schedule::from_str`: whether it parses `expr` (the answer depends on the text
/// alone).
#[verifier::external_body]
fn cron_parses(expr: &str) -> (r: bool)
    ensures
        r == cron_expression_accepted(expr@),
{
    <cron::Schedule as std::str::FromStr>::from_str(expr).is_ok()
}

/// A cron expression must parse.
pub fn validate_cron(expr: &str) -> (r: AppResult<()>)
    ensures
        r is Ok <==> cron_expression_accepted(expr@),
        r matches Err(e) ==> e is Validation && e.spec_message() == "无效的 cron 表达式: "@ + expr@,
{
    if !cron_parses(expr) {
        let mut msg = owned("无效的 cron 表达式: ");
        push_str(&mut msg, expr);
        return Err(AppError::Validation(msg));
    }
    Ok(())
}

/// A job name may be used once.
pub fn check_job_name_free(name: &str, taken: bool) -> (r: AppResult<()>)
    ensures
        r is Ok <==> !taken,
        r matches Err(e) ==> e is Conflict && e.spec_message() == "任务名称 '"@ + name@ + "' 已存在"@,
{
    if taken {
        let mut msg = owned("任务名称 '");
        push_str(&mut msg, name);
        push_str(&mut msg, "' 已存在");
        return Err(AppError::Conflict(msg));
    }
    Ok(())
}

/// A stored job. Times are Unix milliseconds.
pub struct JobRecord {
    pub id: i64,
    pub name: String,
    pub group_name: String,
    pub cron_expr: String,
    pub misfire_policy: String,
    pub concurrent: String,
    pub status: String,
    pub remark: Option<String>,
    pub create_time: i64,
    pub update_time: i64,
}

fn owned_or(value: Option<&str>, default: &str) -> (r: String)
    ensures
        r@ == match value {
            Some(v) => v@,
            None => default@,
        },
{
    match value {
        Some(v) => owned(v),
        None => owned(default),
    }
}

/// A new job: group `default`, misfire policy `1` and not concurrent unless given; enabled.
pub fn new_job_record(
    id: i64,
    name: &str,
    cron_expr: &str,
    group_name: Option<&str>,
    misfire_policy: Option<&str>,
    concurrent: Option<&str>,
    remark: Option<&str>,
    now: i64,
) -> (r: JobRecord)
    ensures
        r.id == id,
        r.name@ == name@,
        r.cron_expr@ == cron_expr@,
        r.group_name@ == (match group_name { Some(v) => v@, None => DEFAULT_JOB_GROUP@ }),
        r.misfire_policy@ == (match misfire_policy { Some(v) => v@, None => DEFAULT_MISFIRE_POLICY@ }),
        r.concurrent@ == (match concurrent { Some(v) => v@, None => DEFAULT_CONCURRENT@ }),
        r.status@ == JOB_STATUS_NORMAL@,
        match remark {
            Some(v) => r.remark matches Some(s) && s@ == v@,
            None => r.remark is None,
        },
        r.create_time == now,
        r.update_time == now,
{
    JobRecord {
        id,
        name: owned(name),
        group_name: owned_or(group_name, DEFAULT_JOB_GROUP),
        cron_expr: owned(cron_expr),
        misfire_policy: owned_or(misfire_policy, DEFAULT_MISFIRE_POLICY),
        concurrent: owned_or(concurrent, DEFAULT_CONCURRENT),
        status: owned(JOB_STATUS_NORMAL),
        remark: match remark {
            Some(v) => Some(owned(v)),
            None => None,
        },
        create_time: now,
        update_time: now,
    }
}

/// What the scheduler knows of a registered task.
pub struct SchedulerTaskInfo {
    pub name: String,
    pub description: String,
    pub next_fire_time: Option<String>,
}

/// A job as listed.
pub struct JobVo {
    pub id: String,
    pub name: String,
    pub group_name: String,
    pub cron_expr: String,
    pub misfire_policy: String,
    pub concurrent: String,
    pub status: String,
    pub description: String,
    pub next_fire_time: Option<String>,
    pub remark: Option<String>,
    pub create_time: i64,
    pub update_time: i64,
}

/// The first scheduler task with the given name.
pub open spec fn task_named(tasks: Seq<SchedulerTaskInfo>, name: Seq<char>) -> Option<SchedulerTaskInfo>
    decreases tasks.len(),
{
    if tasks.len() == 0 {
        None
    } else if tasks[0].name@ == name {
        Some(tasks[0])
    } else {
        task_named(tasks.drop_first(), name)
    }
}

/// `vo` shows `job` with what the scheduler says of the task of the same name (its
/// description, empty without a task, and its next fire time).
pub open spec fn job_shown(job: JobRecord, tasks: Seq<SchedulerTaskInfo>, vo: JobVo) -> bool {
    &&& vo.id@ == signed_decimal(job.id as int)
    &&& vo.name == job.name
    &&& vo.group_name == job.group_name
    &&& vo.cron_expr == job.cron_expr
    &&& vo.misfire_policy == job.misfire_policy
    &&& vo.concurrent == job.concurrent
    &&& vo.status == job.status
    &&& vo.remark == job.remark
    &&& vo.create_time == job.create_time
    &&& vo.update_time == job.update_time
    &&& match task_named(tasks, job.name@) {
        Some(t) => vo.description@ == t.description@ && vo.next_fire_time == t.next_fire_time,
        None => vo.description@ == Seq::<char>::empty() && vo.next_fire_time is None,
    }
}

fn find_task<'a>(tasks: &'a [SchedulerTaskInfo], name: &str) -> (r: Option<&'a SchedulerTaskInfo>)
    ensures
        match r {
            None => task_named(tasks@, name@) is None,
            Some(t) => task_named(tasks@, name@) == Some(*t),
        },
{
    let mut i: usize = 0;
    assert(tasks@.skip(0) =~= tasks@);
    while i < tasks.len()
        invariant
            i <= tasks.len(),
            task_named(tasks@, name@) == task_named(tasks@.skip(i as int), name@),
        decreases tasks.len() - i,
    {
        assert(tasks@.skip(i as int).drop_first() =~= tasks@.skip(i + 1 as int));
        assert(tasks@.skip(i as int)[0] == tasks@[i as int]);
        if str_eq(tasks[i].name.as_str(), name) {
            return Some(&tasks[i]);
        }
        i = i + 1;
    }
    assert(tasks@.skip(tasks.len() as int).len() == 0);
    None
}

/// The listing view of a job.
pub fn job_vo(job: JobRecord, tasks: &[SchedulerTaskInfo]) -> (r: JobVo)
    ensures
        job_shown(job, tasks@, r),
{
    let task = find_task(tasks, job.name.as_str());
    let (description, next_fire_time) = match task {
        Some(t) => (t.description.clone(), match &t.next_fire_time {
            Some(s) => Some(s.clone()),
            None => None,
        }),
        None => (String::new(), None),
    };
    let mut id = String::new();
    push_signed_decimal(&mut id, job.id);
    assert(id@ =~= signed_decimal(job.id as int));
    JobVo {
        id,
        name: job.name,
        group_name: job.group_name,
        cron_expr: job.cron_expr,
        misfire_policy: job.misfire_policy,
        concurrent: job.concurrent,
        status: job.status,
        description,
        next_fire_time,
        remark: job.remark,
        create_time: job.create_time,
        update_time: job.update_time,
    }
}

/// `vo` shows one of `jobs`.
pub open spec fn shown_from(jobs: Seq<JobRecord>, tasks: Seq<SchedulerTaskInfo>, vo: JobVo) -> bool {
    exists|i: int| 0 <= i < jobs.len() && job_shown(jobs[i], tasks, vo)
}

/// Ordered by name; jobs with the same name keep their order.
pub open spec fn sorted_by_name(v: Seq<JobVo>) -> bool {
    forall|i: int, j: int| 0 <= i < j < v.len() ==> !seq_lt(#[trigger] v[j].name@, #[trigger] v[i].name@)
}

/// Line `k` of a listing shows job `order[k]`, each job on exactly one line.
pub open spec fn lists_each_once(jobs: Seq<JobRecord>, tasks: Seq<SchedulerTaskInfo>, v: Seq<JobVo>, order: Seq<int>) -> bool {
    &&& order.len() == v.len()
    &&& forall|k: int| 0 <= k < v.len() ==> 0 <= #[trigger] order[k] < jobs.len() && job_shown(jobs[order[k]], tasks, v[k])
    &&& forall|a: int, b: int| 0 <= a < b < v.len() ==> #[trigger] order[a] != #[trigger] order[b]
}

/// All jobs as listed: each stored job with its scheduler information, once, ordered by name.
pub fn list_jobs(jobs: Vec<JobRecord>, tasks: &[SchedulerTaskInfo]) -> (r: Vec<JobVo>)
    ensures
        sorted_by_name(r@),
        r@.len() == jobs@.len(),
        forall|k: int| 0 <= k < r@.len() ==> shown_from(jobs@, tasks@, #[trigger] r@[k]),
        exists|order: Seq<int>| lists_each_once(jobs@, tasks@, r@, order),
{
    let ghost input = jobs@;
    let ghost mut order: Seq<int> = Seq::empty();
    let mut out: Vec<JobVo> = Vec::new();
    for job in it: jobs.into_iter()
        invariant
            it.seq() == input,
            out@.len() == it.index(),
            sorted_by_name(out@),
            forall|k: int| 0 <= k < out@.len() ==> shown_from(input, tasks@, #[trigger] out@[k]),
            lists_each_once(input, tasks@, out@, order),
            forall|k: int| 0 <= k < order.len() ==> #[trigger] order[k] < it.index(),
    {
        let ghost j = job;
        let ghost idx = it.index() as int;
        let vo = job_vo(job, tasks);
        let mut p: usize = 0;
        while p < out.len() && !str_lt(vo.name.as_str(), out[p].name.as_str())
            invariant
                p <= out@.len(),
                forall|k: int| 0 <= k < p ==> !seq_lt(vo.name@, out@[k].name@),
            decreases out.len() - p,
        {
            p = p + 1;
        }
        let ghost before = out@;
        let ghost v = vo;
        proof {
            assert(job_shown(input[idx], tasks@, v));
        }
        out.insert(p, vo);
        proof {
            assert(out@ =~= before.insert(p as int, v));
            assert forall|a: int, b: int| 0 <= a < b < out@.len() implies !seq_lt(#[trigger] out@[b].name@, #[trigger] out@[a].name@) by {
                if b < p {
                    assert(out@[a] == before[a] && out@[b] == before[b]);
                } else if b == p {
                    assert(out@[a] == before[a]);
                } else if a < p {
                    assert(out@[a] == before[a] && out@[b] == before[b - 1]);
                    if p < before.len() {
                        assert(seq_lt(v.name@, before[p as int].name@));
                        crate::strset::lemma_lt_asymmetric(v.name@, before[p as int].name@);
                        if seq_lt(before[b - 1].name@, before[a].name@) {
                            if b - 1 == p {
                            } else {
                                crate::strset::lemma_lt_total(before[p as int].name@, before[b - 1].name@);
                                if seq_lt(before[b - 1].name@, before[p as int].name@) {
                                } else if before[b - 1].name@ == before[p as int].name@ {
                                } else {
                                    crate::strset::lemma_lt_transitive(before[p as int].name@, before[b - 1].name@, before[a].name@);
                                    crate::strset::lemma_lt_transitive(v.name@, before[p as int].name@, before[a].name@);
                                }
                            }
                        }
                    }
                } else if a == p {
                    assert(out@[b] == before[b - 1]);
                    assert(seq_lt(v.name@, before[p as int].name@));
                    if seq_lt(before[b - 1].name@, v.name@) {
                        if b - 1 == p {
                            crate::strset::lemma_lt_asymmetric(v.name@, before[p as int].name@);
                        } else {
                            crate::strset::lemma_lt_transitive(before[b - 1].name@, v.name@, before[p as int].name@);
                        }
                    }
                } else {
                    assert(out@[a] == before[a - 1] && out@[b] == before[b - 1]);
                }
            }
            assert forall|k: int| 0 <= k < out@.len() implies shown_from(input, tasks@, #[trigger] out@[k]) by {
                if k < p {
                    assert(out@[k] == before[k]);
                } else if k == p {
                    assert(job_shown(input[idx], tasks@, out@[k]));
                } else {
                    assert(out@[k] == before[k - 1]);
                }
            }
            let old_order = order;
            order = old_order.insert(p as int, idx);
            assert forall|k: int| 0 <= k < out@.len() implies 0 <= #[trigger] order[k] < input.len() && job_shown(
                input[order[k]],
                tasks@,
                out@[k],
            ) by {
                if k < p {
                    assert(out@[k] == before[k] && order[k] == old_order[k]);
                } else if k == p {
                    assert(order[k] == idx);
                } else {
                    assert(out@[k] == before[k - 1] && order[k] == old_order[k - 1]);
                }
            }
            assert forall|a: int, b: int| 0 <= a < b < out@.len() implies #[trigger] order[a] != #[trigger] order[b] by {
                let oa = if a < p { a } else if a == p { -1 } else { a - 1 };
                let ob = if b < p { b } else if b == p { -1 } else { b - 1 };
                if a != p && b != p {
                    assert(order[a] == old_order[oa] && order[b] == old_order[ob]);
                } else if a == p {
                    assert(order[b] == old_order[ob]);
                    assert(old_order[ob] < idx);
                } else {
                    assert(order[a] == old_order[oa]);
                    assert(old_order[oa] < idx);
                }
            }
            assert forall|k: int| 0 <= k < order.len() implies #[trigger] order[k] < idx + 1 by {
                if k < p {
                    assert(order[k] == old_order[k]);
                } else if k > p {
                    assert(order[k] == old_order[k - 1]);
                }
            }
        }
    }
    assert(lists_each_once(jobs@, tasks@, out@, order));
    out
}

/// A requested status pauses the job when it is the paused status; any other resumes it.
pub fn status_pauses(status: &str) -> (r: bool)
    ensures
        r == (status@ == JOB_STATUS_PAUSED@),
{
    str_eq(status, JOB_STATUS_PAUSED)
}

/// The error text recorded for a run: its message when the run failed.
pub fn run_error_message(status: &str, message: &str) -> (r: Option<String>)
    ensures
        status@ == JOB_LOG_STATUS_FAIL@ ==> (r matches Some(m) && m@ == message@),
        status@ != JOB_LOG_STATUS_FAIL@ ==> r is None,
{
    if str_eq(status, JOB_LOG_STATUS_FAIL) {
        Some(owned(message))
    } else {
        None
    }
}

/// How a built-in task is registered at start-up: with the stored cron and pause state when
/// a record exists, otherwise with the task's own cron, running.
pub fn builtin_registration(stored: Option<&JobRecord>) -> (r: (Option<String>, bool))
    ensures
        match stored {
            Some(j) => r.0 matches Some(c) && c@ == j.cron_expr@ && r.1 == (j.status@ == JOB_STATUS_PAUSED@),
            None => r.0 is None && !r.1,
        },
{
    match stored {
        Some(j) => (Some(j.cron_expr.clone()), str_eq(j.status.as_str(), JOB_STATUS_PAUSED)),
        None => (None, false),
    }
}

} // verus!

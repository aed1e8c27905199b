//! Login and operation logs: the records written, their views, and the date filters.
use vstd::prelude::*;

use crate::error::{AppError, AppResult};
use crate::online_user::representable_millis;
use crate::text::{decimal, owned, push_decimal, push_signed_decimal, push_str, signed_decimal};

verus! {

pub const LOG_STATUS_SUCCESS: &'static str = "0";
pub const LOG_STATUS_FAIL: &'static str = "1";

/// Outcome of a sign-in attempt.
#[derive(Debug, Clone, Copy, PartialEq, Eq, Structural)]
pub enum LoginStatus {
    Success,
    Failure,
}

impl LoginStatus {
    /// The stored code: `0` for success, `1` for failure.
    pub fn as_str(self) -> (r: &'static str)
        ensures
            r@ == if self is Success {
                LOG_STATUS_SUCCESS@
            } else {
                LOG_STATUS_FAIL@
            },
    {
        match self {
            LoginStatus::Success => LOG_STATUS_SUCCESS,
            LoginStatus::Failure => LOG_STATUS_FAIL,
        }
    }
}

/// Outcome of an audited operation.
#[derive(Debug, Clone, Copy, PartialEq, Eq, Structural)]
pub enum OperLogStatus {
    Success,
    Failure,
}

impl OperLogStatus {
    /// The stored code: `0` for success, `1` for failure.
    pub fn as_str(self) -> (r: &'static str)
        ensures
            r@ == if self is Success {
                LOG_STATUS_SUCCESS@
            } else {
                LOG_STATUS_FAIL@
            },
    {
        match self {
            OperLogStatus::Success => LOG_STATUS_SUCCESS,
            OperLogStatus::Failure => LOG_STATUS_FAIL,
        }
    }
}

/// A sign-in attempt to record.
pub struct RecordLoginCommand {
    pub tenant_id: String,
    pub user_name: String,
    pub ipaddr: String,
    pub browser: Option<String>,
    pub os: Option<String>,
    pub status: LoginStatus,
    pub message: Option<String>,
}

/// A stored sign-in log row; `login_time` in Unix milliseconds.
pub struct LoginInfoRecord {
    pub id: i64,
    pub tenant_id: String,
    pub user_name: String,
    pub ipaddr: String,
    pub login_location: Option<String>,
    pub browser: Option<String>,
    pub os: Option<String>,
    pub status: String,
    pub msg: Option<String>,
    pub login_time: i64,
}

/// The row recorded for a sign-in attempt: the command's fields, no location, the status code
/// and the given id and time.
pub fn login_record(command: RecordLoginCommand, id: i64, login_time: i64) -> (r: LoginInfoRecord)
    ensures
        r.id == id,
        r.tenant_id == command.tenant_id,
        r.user_name == command.user_name,
        r.ipaddr == command.ipaddr,
        r.login_location is None,
        r.browser == command.browser,
        r.os == command.os,
        r.status@ == (if command.status is Success { LOG_STATUS_SUCCESS@ } else { LOG_STATUS_FAIL@ }),
        r.msg == command.message,
        r.login_time == login_time,
{
    LoginInfoRecord {
        id,
        tenant_id: command.tenant_id,
        user_name: command.user_name,
        ipaddr: command.ipaddr,
        login_location: None,
        browser: command.browser,
        os: command.os,
        status: owned(command.status.as_str()),
        msg: command.message,
        login_time,
    }
}

/// A sign-in log as listed.
pub struct LoginInfoVo {
    pub id: String,
    pub user_name: String,
    pub ipaddr: String,
    pub login_location: Option<String>,
    pub browser: Option<String>,
    pub os: Option<String>,
    pub status: String,
    pub msg: Option<String>,
    pub login_time: String,
}

/// `yyyy-mm-dd HH:MM:SS` (UTC) of a Unix-millisecond instant, as `chrono` formats it.
pub uninterp spec fn log_time_text(ms: i64) -> Seq<char>;

/// Wraps `chrono::DateTime::<Utc>::from_timestamp_millis` and `format("%Y-%m-%d %H:%M:%S")`:
/// the text depends on the instant alone; inside the representable range the conversion
/// always succeeds.
#[verifier::external_body]
fn format_log_time(ms: i64) -> (r: String)
    requires
        representable_millis(ms),
    ensures
        r@ == log_time_text(ms),
{
    match chrono::DateTime::from_timestamp_millis(ms) {
        Some(t) => t.format("%Y-%m-%d %H:%M:%S").to_string(),
        None => String::new(),
    }
}

/// The listing view of a sign-in log: the id in decimal and the time formatted.
pub fn login_info_vo(log: LoginInfoRecord) -> (r: LoginInfoVo)
    requires
        representable_millis(log.login_time),
    ensures
        r.id@ == signed_decimal(log.id as int),
        r.user_name == log.user_name,
        r.ipaddr == log.ipaddr,
        r.login_location == log.login_location,
        r.browser == log.browser,
        r.os == log.os,
        r.status == log.status,
        r.msg == log.msg,
        r.login_time@ == log_time_text(log.login_time),
{
    let mut id = String::new();
    push_signed_decimal(&mut id, log.id);
    assert(id@ =~= signed_decimal(log.id as int));
    LoginInfoVo {
        id,
        user_name: log.user_name,
        ipaddr: log.ipaddr,
        login_location: log.login_location,
        browser: log.browser,
        os: log.os,
        status: log.status,
        msg: log.msg,
        login_time: format_log_time(log.login_time),
    }
}

/// An operation to record.
pub struct RecordOperLogCommand {
    pub title: String,
    pub business_type: String,
    pub method: String,
    pub request_method: String,
    pub oper_name: String,
    pub oper_url: String,
    pub oper_ip: String,
    pub oper_param: Option<String>,
    pub json_result: Option<String>,
    pub status: OperLogStatus,
    pub error_msg: Option<String>,
    pub cost_time: i64,
}

/// A stored operation log row; `oper_time` in Unix milliseconds.
pub struct OperLogRecord {
    pub id: i64,
    pub tenant_id: String,
    pub title: String,
    pub business_type: String,
    pub method: String,
    pub request_method: String,
    pub oper_name: String,
    pub oper_url: String,
    pub oper_ip: String,
    pub oper_location: Option<String>,
    pub oper_param: Option<String>,
    pub json_result: Option<String>,
    pub status: String,
    pub error_msg: Option<String>,
    pub oper_time: i64,
    pub cost_time: i64,
}

/// The row recorded for an operation in `tenant_id`.
pub fn oper_log_record(command: RecordOperLogCommand, tenant_id: String, id: i64, oper_time: i64) -> (r: OperLogRecord)
    ensures
        r.id == id,
        r.tenant_id == tenant_id,
        r.title == command.title,
        r.business_type == command.business_type,
        r.method == command.method,
        r.request_method == command.request_method,
        r.oper_name == command.oper_name,
        r.oper_url == command.oper_url,
        r.oper_ip == command.oper_ip,
        r.oper_location is None,
        r.oper_param == command.oper_param,
        r.json_result == command.json_result,
        r.status@ == (if command.status is Success { LOG_STATUS_SUCCESS@ } else { LOG_STATUS_FAIL@ }),
        r.error_msg == command.error_msg,
        r.oper_time == oper_time,
        r.cost_time == command.cost_time,
{
    OperLogRecord {
        id,
        tenant_id,
        title: command.title,
        business_type: command.business_type,
        method: command.method,
        request_method: command.request_method,
        oper_name: command.oper_name,
        oper_url: command.oper_url,
        oper_ip: command.oper_ip,
        oper_location: None,
        oper_param: command.oper_param,
        json_result: command.json_result,
        status: owned(command.status.as_str()),
        error_msg: command.error_msg,
        oper_time,
        cost_time: command.cost_time,
    }
}

/// An operation log as listed.
pub struct OperLogVo {
    pub id: String,
    pub title: String,
    pub business_type: String,
    pub method: String,
    pub request_method: String,
    pub oper_name: String,
    pub oper_url: String,
    pub oper_ip: String,
    pub oper_location: Option<String>,
    pub oper_param: Option<String>,
    pub json_result: Option<String>,
    pub status: String,
    pub error_msg: Option<String>,
    pub cost_time: i64,
    pub oper_time: String,
}

/// The listing view of an operation log: the id in decimal and the time formatted.
pub fn oper_log_vo(log: OperLogRecord) -> (r: OperLogVo)
    requires
        representable_millis(log.oper_time),
    ensures
        r.id@ == signed_decimal(log.id as int),
        r.title == log.title,
        r.business_type == log.business_type,
        r.method == log.method,
        r.request_method == log.request_method,
        r.oper_name == log.oper_name,
        r.oper_url == log.oper_url,
        r.oper_ip == log.oper_ip,
        r.oper_location == log.oper_location,
        r.oper_param == log.oper_param,
        r.json_result == log.json_result,
        r.status == log.status,
        r.error_msg == log.error_msg,
        r.cost_time == log.cost_time,
        r.oper_time@ == log_time_text(log.oper_time),
{
    let mut id = String::new();
    push_signed_decimal(&mut id, log.id);
    assert(id@ =~= signed_decimal(log.id as int));
    OperLogVo {
        id,
        title: log.title,
        business_type: log.business_type,
        method: log.method,
        request_method: log.request_method,
        oper_name: log.oper_name,
        oper_url: log.oper_url,
        oper_ip: log.oper_ip,
        oper_location: log.oper_location,
        oper_param: log.oper_param,
        json_result: log.json_result,
        status: log.status,
        error_msg: log.error_msg,
        cost_time: log.cost_time,
        oper_time: format_log_time(log.oper_time),
    }
}

/// The instant, in Unix milliseconds, that `chrono` reads from `text` with the format
/// `%Y-%m-%d %H:%M:%S` (taken as UTC), if it reads one.
pub uninterp spec fn parsed_log_time(text: Seq<char>) -> Option<i64>;

/// Wraps `chrono::NaiveDateTime::parse_from_str` with `%Y-%m-%d %H:%M:%S`, taken as UTC.
#[verifier::external_body]
fn parse_log_time(text: &str) -> (r: Option<i64>)
    ensures
        r == parsed_log_time(text@),
{
    match chrono::NaiveDateTime::parse_from_str(text, "%Y-%m-%d %H:%M:%S") {
        Ok(d) => Some(d.and_utc().timestamp_millis()),
        Err(_) => None,
    }
}

pub open spec fn spec_day_boundary(date: Option<Seq<char>>, time: Seq<char>) -> Option<i64> {
    match date {
        None => None,
        Some(d) => parsed_log_time(d + " "@ + time),
    }
}

fn parse_day_boundary(date: Option<&str>, time: &str) -> (r: Option<i64>)
    ensures
        r == spec_day_boundary(crate::online_user::opt_str_view(date), time@),
{
    match date {
        None => None,
        Some(d) => {
            let mut text = owned(d);
            push_str(&mut text, " ");
            push_str(&mut text, time);
            parse_log_time(text.as_str())
        },
    }
}

/// The filter window of a log search: the start of the first day and the last second of the
/// last day; a date that does not parse sets no bound.
pub fn parse_log_time_range(begin_time: Option<&str>, end_time: Option<&str>) -> (r: (Option<i64>, Option<i64>))
    ensures
        r.0 == spec_day_boundary(crate::online_user::opt_str_view(begin_time), "00:00:00"@),
        r.1 == spec_day_boundary(crate::online_user::opt_str_view(end_time), "23:59:59"@),
{
    (parse_day_boundary(begin_time, "00:00:00"), parse_day_boundary(end_time, "23:59:59"))
}

/// An export stops with a validation error once it has gathered more than `maximum_records`.
pub fn check_export_count(count: usize, maximum_records: usize) -> (r: AppResult<()>)
    ensures
        r is Ok <==> count <= maximum_records,
        r matches Err(e) ==> e is Validation && e.spec_message() == "导出记录数超过 "@ + decimal(
            maximum_records as nat,
        ) + " 条上限"@,
{
    if count > maximum_records {
        let mut msg = owned("导出记录数超过 ");
        push_decimal(&mut msg, maximum_records as u64);
        push_str(&mut msg, " 条上限");
        return Err(AppError::Validation(msg));
    }
    Ok(())
}

} // verus!

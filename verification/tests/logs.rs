use ryframe_service::error::AppError;
use ryframe_service::logs::{
    check_export_count, login_info_vo, login_record, oper_log_record, oper_log_vo, parse_log_time_range,
    LoginStatus, OperLogStatus, RecordLoginCommand, RecordOperLogCommand,
};

#[test]
fn status_codes() {
    assert_eq!(LoginStatus::Success.as_str(), "0");
    assert_eq!(LoginStatus::Failure.as_str(), "1");
    assert_eq!(OperLogStatus::Success.as_str(), "0");
    assert_eq!(OperLogStatus::Failure.as_str(), "1");
}

#[test]
fn login_records_and_views() {
    let command = RecordLoginCommand {
        tenant_id: "t1".into(),
        user_name: "alice".into(),
        ipaddr: "10.0.0.1".into(),
        browser: Some("Chrome".into()),
        os: None,
        status: LoginStatus::Failure,
        message: Some("bad password".into()),
    };
    let record = login_record(command, 123, 86_400_000);
    assert_eq!(record.status, "1");
    assert_eq!(record.login_location, None);
    let vo = login_info_vo(record);
    assert_eq!(vo.id, "123");
    assert_eq!(vo.login_time, "1970-01-02 00:00:00");
    assert_eq!(vo.msg.as_deref(), Some("bad password"));
}

#[test]
fn oper_records_and_views() {
    let command = RecordOperLogCommand {
        title: "用户".into(),
        business_type: "1".into(),
        method: "create".into(),
        request_method: "POST".into(),
        oper_name: "admin".into(),
        oper_url: "/users".into(),
        oper_ip: "::1".into(),
        oper_param: None,
        json_result: None,
        status: OperLogStatus::Success,
        error_msg: None,
        cost_time: 12,
    };
    let record = oper_log_record(command, "t1".into(), -5, 0);
    assert_eq!(record.tenant_id, "t1");
    let vo = oper_log_vo(record);
    assert_eq!(vo.id, "-5");
    assert_eq!(vo.status, "0");
    assert_eq!(vo.oper_time, "1970-01-01 00:00:00");
}

#[test]
fn date_filters_and_export_limit() {
    let (begin, end) = parse_log_time_range(Some("1970-01-02"), Some("1970-01-02"));
    assert_eq!(begin, Some(86_400_000));
    assert_eq!(end, Some(2 * 86_400_000 - 1_000));
    assert_eq!(parse_log_time_range(Some("not a date"), None), (None, None));
    assert!(check_export_count(10, 10).is_ok());
    assert_eq!(check_export_count(11, 10), Err(AppError::Validation("导出记录数超过 10 条上限".into())));
}

use ryframe_service::config::{
    check_config_key_free, config_read_step, ConfigReadAction, ConfigReadEvent, ConfigReadState,
    NamespaceCacheLookup,
};
use ryframe_service::error::AppError;
use ryframe_service::job::{
    builtin_registration, check_job_name_free, job_vo, list_jobs, new_job_record, run_error_message,
    status_pauses, validate_cron, SchedulerTaskInfo,
};
use ryframe_service::online_user::{
    index_ttl_needs_extension, merge_session_keys, parse_touch_cas_outcome, sort_by_recent_access,
    touch_result, TouchCasOutcome, UserSession,
};
use ryframe_service::role::{check_departments_found, check_roles_selected, scope_departments, validate_data_scope};

#[test]
fn role_data_scopes() {
    assert!(validate_data_scope("1").is_ok());
    assert!(validate_data_scope("5").is_ok());
    assert!(matches!(validate_data_scope("6"), Err(AppError::Validation(_))));
    assert_eq!(scope_departments("2", &[5, 3, 5]), Ok(vec![3, 5]));
    assert!(matches!(scope_departments("2", &[]), Err(AppError::Validation(_))));
    assert_eq!(scope_departments("1", &[]), Ok(vec![]));
    assert!(matches!(scope_departments("1", &[4]), Err(AppError::Validation(_))));
    assert!(check_roles_selected(&[1]).is_ok());
    assert!(check_roles_selected(&[]).is_err());
    assert!(check_departments_found(2, 2).is_ok());
    assert!(check_departments_found(1, 2).is_err());
}

#[test]
fn cron_validation_uses_the_cron_parser() {
    assert!(validate_cron("0 30 9 * * * *").is_ok());
    assert!(validate_cron("0 */5 * * * *").is_ok());
    assert_eq!(
        validate_cron("not a cron"),
        Err(AppError::Validation("无效的 cron 表达式: not a cron".into()))
    );
    assert_eq!(
        check_job_name_free("cleanup", true),
        Err(AppError::Conflict("任务名称 'cleanup' 已存在".into()))
    );
    assert!(check_job_name_free("cleanup", false).is_ok());
}

#[test]
fn jobs_records_views_and_listing() {
    let j = new_job_record(9, "b-job", "0 * * * * *", None, Some("2"), None, Some("note"), 1_000);
    assert_eq!(j.group_name, "default");
    assert_eq!(j.misfire_policy, "2");
    assert_eq!(j.concurrent, "0");
    assert_eq!(j.status, "0");
    let tasks = vec![SchedulerTaskInfo { name: "a-job".into(), description: "runs a".into(), next_fire_time: Some("soon".into()) }];
    let vo = job_vo(j, &tasks);
    assert_eq!(vo.id, "9");
    assert_eq!(vo.description, "");
    let a = new_job_record(1, "a-job", "0 * * * * *", Some("system"), None, None, None, 0);
    let b = new_job_record(2, "b-job", "0 * * * * *", None, None, None, None, 0);
    let listed = list_jobs(vec![b, a], &tasks);
    assert_eq!(listed.iter().map(|v| v.name.clone()).collect::<Vec<_>>(), vec!["a-job", "b-job"]);
    assert_eq!(listed[0].description, "runs a");
    assert_eq!(listed[0].next_fire_time.as_deref(), Some("soon"));
    assert!(status_pauses("1"));
    assert!(!status_pauses("0"));
    assert_eq!(run_error_message("1", "boom"), Some("boom".to_string()));
    assert_eq!(run_error_message("0", "ok"), None);
    let stored = new_job_record(3, "c", "0 0 * * * *", None, None, None, None, 0);
    assert_eq!(builtin_registration(Some(&stored)), (Some("0 0 * * * *".to_string()), false));
    assert_eq!(builtin_registration(None), (None, false));
}

#[test]
fn config_read_path() {
    let (s, a) = config_read_step(ConfigReadState::Start, ConfigReadEvent::Begin { eventual: true, cache_enabled: true });
    assert_eq!(s, ConfigReadState::WaitingCache);
    assert!(matches!(a, ConfigReadAction::ReadCache));
    let (s, a) = config_read_step(s, ConfigReadEvent::CacheAnswered(Some(NamespaceCacheLookup { namespace_version: 4, value: Some("{}".into()) })));
    assert_eq!(s, ConfigReadState::WaitingParse { namespace_version: 4 });
    assert!(matches!(a, ConfigReadAction::ParseCached(ref j) if j == "{}"));
    let (s, a) = config_read_step(s, ConfigReadEvent::CachedParsed(false));
    assert_eq!(s, ConfigReadState::WaitingPrimary { store_version: Some(4) });
    assert!(matches!(a, ConfigReadAction::ReadPrimary));
    let (s, a) = config_read_step(s, ConfigReadEvent::PrimaryAnswered { found: true });
    assert_eq!(s, ConfigReadState::Done);
    assert!(matches!(a, ConfigReadAction::StoreAndFinish { namespace_version: 4 }));
    let (_, a) = config_read_step(ConfigReadState::Start, ConfigReadEvent::Begin { eventual: false, cache_enabled: true });
    assert!(matches!(a, ConfigReadAction::ReadPrimary));
    let (_, a) = config_read_step(ConfigReadState::Done, ConfigReadEvent::CachedParsed(true));
    assert!(matches!(a, ConfigReadAction::Invalid));
    assert_eq!(check_config_key_free("k", true), Err(AppError::Validation("参数键名 'k' 已存在".into())));
}

fn session(sid: &str, last: i64) -> UserSession {
    UserSession {
        sid: sid.into(),
        tenant_id: "t".into(),
        user_id: 1,
        username: "u".into(),
        dept_name: None,
        ipaddr: "ip".into(),
        login_location: None,
        browser: None,
        os: None,
        login_time: 0,
        last_access_time: last,
        absolute_exp: 100,
    }
}

#[test]
fn shared_cache_decisions() {
    assert_eq!(parse_touch_cas_outcome(0), Ok(TouchCasOutcome::Skipped));
    assert_eq!(parse_touch_cas_outcome(1), Ok(TouchCasOutcome::Updated));
    assert_eq!(parse_touch_cas_outcome(2), Ok(TouchCasOutcome::Deleted));
    assert!(matches!(parse_touch_cas_outcome(3), Err(AppError::ServiceUnavailable(_))));
    assert!(touch_result(TouchCasOutcome::Updated).is_ok());
    assert!(touch_result(TouchCasOutcome::Deleted).is_err());
    assert!(index_ttl_needs_extension(-1, 10));
    assert!(index_ttl_needs_extension(5, 10));
    assert!(!index_ttl_needs_extension(10, 10));
    let keys = merge_session_keys(vec!["ryframe:v0.5:online-user:t:b".into(), "ryframe:v0.5:online-user:t:a".into()], "t", &["b".to_string(), "c".to_string()]);
    assert_eq!(keys, vec![
        "ryframe:v0.5:online-user:t:a".to_string(),
        "ryframe:v0.5:online-user:t:b".to_string(),
        "ryframe:v0.5:online-user:t:c".to_string(),
    ]);
    let sorted = sort_by_recent_access(vec![session("a", 1), session("b", 3), session("c", 1), session("d", 2)]);
    assert_eq!(sorted.iter().map(|s| s.sid.clone()).collect::<Vec<_>>(), vec!["b", "d", "a", "c"]);
}

fn begin_eventual() -> ConfigReadState {
    let (s, a) = config_read_step(ConfigReadState::Start, ConfigReadEvent::Begin { eventual: true, cache_enabled: true });
    assert!(matches!(a, ConfigReadAction::ReadCache));
    s
}

#[test]
fn hot_cache_hit_performs_zero_sql() {
    let s = begin_eventual();
    let (s, a) = config_read_step(
        s,
        ConfigReadEvent::CacheAnswered(Some(NamespaceCacheLookup { namespace_version: 7, value: Some("\"dark\"".into()) })),
    );
    assert!(matches!(a, ConfigReadAction::ParseCached(ref json) if json == "\"dark\""));
    let (s, a) = config_read_step(s, ConfigReadEvent::CachedParsed(true));
    assert!(matches!(a, ConfigReadAction::Finish));
    assert!(s == ConfigReadState::Done);
}

#[test]
fn cache_miss_reads_primary_instead_of_replica() {
    let s = begin_eventual();
    let (s, a) = config_read_step(
        s,
        ConfigReadEvent::CacheAnswered(Some(NamespaceCacheLookup { namespace_version: 8, value: None })),
    );
    assert!(matches!(a, ConfigReadAction::ReadPrimary));
    let (_, a) = config_read_step(s, ConfigReadEvent::PrimaryAnswered { found: true });
    assert!(matches!(a, ConfigReadAction::StoreAndFinish { namespace_version: 8 }));
}

#[test]
fn missing_redis_version_is_restored_from_database() {
    let s = begin_eventual();
    let (s, a) = config_read_step(s, ConfigReadEvent::CacheAnswered(None));
    assert!(matches!(a, ConfigReadAction::RestoreVersionFromPrimary));
    let (s, a) = config_read_step(s, ConfigReadEvent::VersionRestored(37));
    assert!(matches!(a, ConfigReadAction::ReadPrimary));
    let (_, a) = config_read_step(s, ConfigReadEvent::PrimaryAnswered { found: true });
    assert!(matches!(a, ConfigReadAction::StoreAndFinish { namespace_version: 37 }));
}

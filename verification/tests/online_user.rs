use ryframe_service::error::AppError;
use ryframe_service::online_user::{sort_by_recent_access, 
    filter_online_users, page_online_users, redis_ttl_secs, remaining_ttl_at, select_decoded_sessions,
    session_key, tenant_index_key, tenant_pattern, tenant_user_index_key, OnlineUserVo, SessionStore,
    UserSession,
};

fn session(tenant: &str, sid: &str, user_id: i64, absolute_exp: i64) -> UserSession {
    UserSession {
        sid: sid.into(),
        tenant_id: tenant.into(),
        user_id,
        username: format!("user{user_id}"),
        dept_name: None,
        ipaddr: "10.0.0.1".into(),
        login_location: None,
        browser: Some("Firefox".into()),
        os: None,
        login_time: 1_000,
        last_access_time: 2_000,
        absolute_exp,
    }
}

fn vo(name: &str, ip: &str) -> OnlineUserVo {
    OnlineUserVo {
        sid: name.into(),
        username: name.into(),
        dept_name: None,
        ipaddr: ip.into(),
        login_location: None,
        browser: None,
        os: None,
        login_time: String::new(),
        last_access_time: String::new(),
    }
}

#[test]
fn keys_follow_the_versioned_layout() {
    assert_eq!(session_key("t1", "s1"), "ryframe:v0.5:online-user:t1:s1");
    assert_eq!(tenant_pattern("t1"), "ryframe:v0.5:online-user:t1:*");
    assert_eq!(tenant_index_key("t1"), "ryframe:v0.9:online-user-index:tenant:t1");
    assert_eq!(tenant_user_index_key("t1", 42), "ryframe:v0.9:online-user-index:tenant-user:t1:42");
    assert_eq!(tenant_user_index_key("t1", -7), "ryframe:v0.9:online-user-index:tenant-user:t1:-7");
}

#[test]
fn ttl_is_capped_and_remaining_time_is_positive_only() {
    assert_eq!(redis_ttl_secs(60), 60);
    assert_eq!(redis_ttl_secs(u64::MAX), i64::MAX);
    assert_eq!(remaining_ttl_at(100, 40), Some(60));
    assert_eq!(remaining_ttl_at(100, 100), None);
    assert_eq!(remaining_ttl_at(100, 200), None);
    assert_eq!(remaining_ttl_at(i64::MAX, i64::MIN), Some(u64::MAX));
}

#[test]
fn filtering_matches_substrings() {
    let users = vec![vo("alice", "10.0.0.1"), vo("bob", "10.0.0.2"), vo("alicia", "192.168.1.1")];
    let r = filter_online_users(users, Some("ali"), None);
    assert_eq!(r.iter().map(|u| u.username.clone()).collect::<Vec<_>>(), vec!["alice", "alicia"]);
    let users = vec![vo("alice", "10.0.0.1"), vo("bob", "10.0.0.2"), vo("alicia", "192.168.1.1")];
    let r = filter_online_users(users, Some("ali"), Some("10."));
    assert_eq!(r.len(), 1);
    assert_eq!(r[0].username, "alice");
    let users = vec![vo("alice", "10.0.0.1")];
    assert_eq!(filter_online_users(users, Some(""), None).len(), 1);
}

#[test]
fn paging_skips_and_takes() {
    let rows = vec![vo("a", "1"), vo("b", "2"), vo("c", "3"), vo("d", "4"), vo("e", "5")];
    let (page, total) = page_online_users(rows, 1, 2).unwrap();
    assert_eq!(total, 5);
    assert_eq!(page.iter().map(|u| u.username.clone()).collect::<Vec<_>>(), vec!["b", "c"]);
    let rows = vec![vo("a", "1"), vo("b", "2")];
    let (page, total) = page_online_users(rows, 5, 2).unwrap();
    assert_eq!(total, 2);
    assert!(page.is_empty());
}

#[test]
fn decoded_sessions_are_kept_only_for_their_tenant_and_key() {
    let keys = vec![session_key("t1", "a"), session_key("t1", "b"), session_key("t1", "c"), session_key("t1", "x")];
    let values = vec![
        Some(session("t1", "a", 1, 1_000)),
        Some(session("t2", "b", 2, 1_000)),
        None,
        Some(session("t1", "y", 3, 1_000)),
    ];
    let kept = select_decoded_sessions("t1", &keys, values, 500).unwrap();
    assert_eq!(kept.len(), 1);
    assert_eq!(kept[0].sid, "a");
    let expired = select_decoded_sessions("t1", &keys[..1], vec![Some(session("t1", "a", 1, 400))], 500).unwrap();
    assert!(expired.is_empty());
    assert!(matches!(select_decoded_sessions("t1", &keys, vec![None], 500), Err(AppError::Internal(_))));
}

#[test]
fn in_process_store_lists_touches_and_cleans() {
    let mut store = SessionStore::new();
    store.add(session("t1", "a", 1, 1_000));
    store.add(session("t1", "b", 2, 100));
    store.add(session("t2", "c", 1, 1_000));
    let live = store.list("t1", 500);
    assert_eq!(live.len(), 1);
    assert_eq!(live[0].sid, "a");
    assert_eq!(store.list_for_user("t2", 1, 500).len(), 1);
    assert!(store.touch("t1", "a", 500, 77_000));
    assert_eq!(store.list("t1", 500)[0].last_access_time, 77_000);
    assert!(!store.touch("t1", "b", 500, 77_000));
    assert!(!store.touch("t1", "b", 50, 77_000));
    store.remove("t1", "a");
    assert!(!store.touch("t1", "a", 500, 1));
    store.add(session("t1", "d", 4, 100));
    store.cleanup_expired(500);
    assert!(store.list("t1", 0).is_empty());
    assert_eq!(store.list("t2", 0).len(), 1);
}

#[test]
fn recent_access_order_is_stable() {
    let mut a = session("t", "a", 1, 9_000);
    a.last_access_time = 5;
    let mut b = session("t", "b", 2, 9_000);
    b.last_access_time = 7;
    let mut c = session("t", "c", 3, 9_000);
    c.last_access_time = 5;
    let mut d = session("t", "d", 4, 9_000);
    d.last_access_time = 7;
    let sorted = sort_by_recent_access(vec![a, b, c, d]);
    let sids: Vec<&str> = sorted.iter().map(|s| s.sid.as_str()).collect();
    assert_eq!(sids, vec!["b", "d", "a", "c"]);
}

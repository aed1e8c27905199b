use ryframe_service::captcha::{captcha_key, eq_ignore_ascii_case, verify_cached, CaptchaMemoryStore};

#[test]
fn answers_are_single_use_and_case_insensitive() {
    let mut store = CaptchaMemoryStore::new_in_memory(60);
    store.set("id1".into(), "AbC9".into(), 1_000);
    assert!(store.verify("id1", "abc9", 2_000));
    assert!(!store.verify("id1", "abc9", 2_000));
}

#[test]
fn wrong_or_expired_answers_fail_and_are_consumed() {
    let mut store = CaptchaMemoryStore::new_in_memory(60);
    store.set("id1".into(), "abcd".into(), 0);
    assert!(!store.verify("id1", "abce", 1));
    assert!(!store.verify("id1", "abcd", 1));
    store.set("id2".into(), "abcd".into(), 0);
    assert!(store.verify("id2", "ABCD", 60_000_000_000));
    store.set("id3".into(), "abcd".into(), 0);
    assert!(!store.verify("id3", "abcd", 60_000_000_001));
    assert!(!store.verify("missing", "abcd", 0));
}

#[test]
fn gc_drops_expired_answers_only() {
    let mut store = CaptchaMemoryStore::new_in_memory(1);
    store.set("old".into(), "x".into(), 0);
    store.set("new".into(), "y".into(), 2_000_000_000);
    store.gc(2_500_000_000);
    assert!(!store.verify("old", "x", 2_500_000_000));
    assert!(store.verify("new", "y", 2_500_000_000));
}

#[test]
fn cached_answers_and_keys() {
    assert_eq!(captcha_key("abc"), "captcha_codes:abc");
    assert!(verify_cached(Some("XyZ"), "xyz"));
    assert!(!verify_cached(Some("XyZ"), "xy"));
    assert!(!verify_cached(None, "xyz"));
    assert!(eq_ignore_ascii_case("Straße", "STRAßE"));
    assert!(!eq_ignore_ascii_case("é", "É"));
}

use ryframe_service::dict::{dict_cache_key, dict_data_vo, DictDataRecord};
use ryframe_service::error::AppError;
use ryframe_service::message::{
    message_delivery, message_inbox, message_template, RecipientMessage, StoredMessage,
    ensure_enabled, prepare_content, publish_tenant, resolve_message_expiry, retention_step, MessageText,
};
use ryframe_service::strset::StrMap;

#[test]
fn dictionary_keys_and_views() {
    assert_eq!(dict_cache_key("t1", "sys_user_sex"), "sys_dict:data:t1:sys_user_sex");
    let vo = dict_data_vo(DictDataRecord {
        id: 77,
        tenant_id: "t1".into(),
        type_code: "sex".into(),
        label: "男".into(),
        value: "0".into(),
        sort: 1,
        status: "0".into(),
        css_class: None,
        remark: None,
        del_flag: "0".into(),
        created_at: 1,
        updated_at: 2,
    });
    assert_eq!(vo.id, "77");
    assert_eq!(vo.label, "男");
}

fn args(pairs: &[(&str, &str)]) -> StrMap<String> {
    let mut m = StrMap::new();
    for (k, v) in pairs {
        m.upsert(k.to_string(), v.to_string());
    }
    m
}

#[test]
fn message_content_must_agree_in_kind_and_arguments() {
    let lit = |v: &str| MessageText::Literal { value: v.into() };
    let p = prepare_content(&lit("t"), &lit("b")).unwrap();
    assert_eq!(p.title_text.as_deref(), Some("t"));
    assert_eq!(p.body_key, None);
    let key = |k: &str, a: &[(&str, &str)]| MessageText::Key { key: k.into(), args: args(a) };
    let p = prepare_content(&key("a.title", &[]), &key("a.body", &[])).unwrap();
    assert_eq!(p.title_key.as_deref(), Some("a.title"));
    assert!(p.args.is_none());
    let p = prepare_content(&key("a.title", &[("n", "1")]), &key("a.body", &[("n", "1")])).unwrap();
    assert_eq!(p.args.unwrap().entries.len(), 1);
    assert!(matches!(prepare_content(&key("a", &[("n", "1")]), &key("b", &[("n", "2")])), Err(AppError::Validation(_))));
    assert!(matches!(prepare_content(&lit("t"), &key("b", &[])), Err(AppError::Validation(_))));
}

#[test]
fn expiry_tenant_and_retention() {
    assert_eq!(resolve_message_expiry(None, 0, 2), Ok(2 * 86_400_000));
    assert_eq!(resolve_message_expiry(Some(5), 0, 2), Ok(5));
    assert_eq!(
        resolve_message_expiry(Some(2 * 86_400_000 + 1), 0, 2),
        Err(AppError::Validation("消息有效期不能超过 2 天".into()))
    );
    assert_eq!(publish_tenant(Some("t2".into()), "t1"), "t2");
    assert_eq!(publish_tenant(None, "t1"), "t1");
    assert_eq!(retention_step(10, 500), (510, false));
    assert_eq!(retention_step(10, 499), (509, true));
    assert_eq!(retention_step(u64::MAX, 1), (u64::MAX, true));
    assert!(matches!(ensure_enabled(false), Err(AppError::ServiceUnavailable(_))));
}

fn stored(id: i64, args: Option<StrMap<String>>) -> StoredMessage {
    StoredMessage {
        id,
        topic: "notice".into(),
        title_text: Some("标题".into()),
        body_text: None,
        title_key: None,
        body_key: Some("msg.body".into()),
        args,
        severity: "info".into(),
        payload: Some("{}".into()),
        published_at: 100,
        expires_at: Some(200),
    }
}

#[test]
fn message_templates_carry_recipient_times() {
    let mut a = StrMap::new();
    a.upsert("name".to_string(), "Ada".to_string());
    let t = message_template(stored(12, Some(a)), Some(150), None);
    assert_eq!(t.id, "12");
    assert_eq!(t.args.get("name").map(String::as_str), Some("Ada"));
    assert_eq!((t.acked_at, t.read_at), (Some(150), None));
    let bare = message_template(stored(13, None), None, Some(160));
    assert_eq!(bare.args.len(), 0);
    assert_eq!(bare.read_at, Some(160));

    let record = |id: i64| RecipientMessage {
        message: stored(id, None),
        tenant_id: "t1".into(),
        user_id: 5,
        acked_at: None,
        read_at: Some(id),
    };
    let d = message_delivery(record(3));
    assert_eq!((d.tenant_id.as_str(), d.user_id, d.message.id.as_str()), ("t1", 5, "3"));
    let inbox = message_inbox(vec![record(1), record(2)], Some(99));
    assert_eq!(inbox.records.len(), 2);
    assert_eq!(inbox.records[1].id, "2");
    assert_eq!(inbox.records[1].read_at, Some(2));
    assert_eq!(inbox.next_cursor.as_deref(), Some("99"));
    assert_eq!(message_inbox(Vec::new(), None).next_cursor, None);
}

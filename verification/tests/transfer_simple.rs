use ryframe_service::error::AppError;
use ryframe_service::strset::StrSet;
use ryframe_service::transfer::portable::{PortableConfig, PortableDictData, PortableDictType, PortablePost};
use ryframe_service::transfer::simple::{
    config_write, dict_data_plan_key, dict_data_write, dict_type_write, find_existing_dict_data, find_existing_row,
    is_changed, post_write, ExistingDictData, ExistingRow,
};

fn row(id: i64, created_at: i64, key: &str) -> ExistingRow {
    ExistingRow { id, created_at, key: key.into() }
}

#[test]
fn existing_rows_match_without_case_and_first_wins() {
    let rows = vec![row(1, 10, "CEO"), row(2, 20, "cto"), row(3, 30, "ceo")];
    assert_eq!(find_existing_row(&rows, "ceo"), Some((1, 10)));
    assert_eq!(find_existing_row(&rows, "CTO"), Some((2, 20)));
    assert_eq!(find_existing_row(&rows, "cfo"), None);
    let data = vec![
        ExistingDictData { id: 5, created_at: 50, type_code: "Sex".into(), value: "M".into() },
        ExistingDictData { id: 6, created_at: 60, type_code: "sex".into(), value: "f".into() },
    ];
    assert_eq!(find_existing_dict_data(&data, "SEX", "F"), Some((6, 60)));
    assert_eq!(find_existing_dict_data(&data, "sex", "x"), None);
}

#[test]
fn only_changed_keys_are_written() {
    let changed = StrSet::from_strings(vec!["ceo".into()]);
    assert!(is_changed(&changed, "CEO"));
    assert!(!is_changed(&changed, "cto"));
}

#[test]
fn writes_keep_the_existing_identity_or_take_a_new_one() {
    let post = PortablePost { code: "ceo".into(), name: "CEO".into(), sort: 1, status: "0".into(), remark: None };
    let (updated, exists) = post_write("t1", &post, Some((9, 90)), 100, 1000);
    assert!(exists);
    assert_eq!((updated.id, updated.created_at, updated.updated_at), (9, 90, 1000));
    assert_eq!(updated.del_flag, "0");
    let (inserted, exists) = post_write("t1", &post, None, 100, 1000);
    assert!(!exists);
    assert_eq!((inserted.id, inserted.created_at, inserted.tenant_id.as_str()), (100, 1000, "t1"));

    let t = PortableDictType { code: "sex".into(), name: "性别".into(), status: "0".into(), remark: Some("r".into()) };
    let (dt, _) = dict_type_write("t1", &t, None, 7, 5);
    assert_eq!((dt.id, dt.code.as_str(), dt.remark.as_deref()), (7, "sex", Some("r")));

    let d = PortableDictData {
        type_code: "sex".into(),
        value: "1".into(),
        label: "男".into(),
        sort: 2,
        status: "0".into(),
        css_class: Some("blue".into()),
        remark: None,
    };
    assert_eq!(dict_data_plan_key(&d), "3:sex:1");
    let (dd, exists) = dict_data_write("t1", &d, Some((4, 40)), 8, 6);
    assert!(exists);
    assert_eq!((dd.id, dd.created_at, dd.css_class.as_deref()), (4, 40, Some("blue")));

    let c = PortableConfig { key: "sys.title".into(), name: "标题".into(), value: "RyFrame".into(), remark: None };
    let (cw, exists) = config_write("t1", &c, false, None, 11, 7).ok().unwrap();
    assert!(!exists);
    assert!(cw.portable);
    assert_eq!((cw.id, cw.key.as_str(), cw.value.as_str()), (11, "sys.title", "RyFrame"));
    assert!(matches!(config_write("t1", &c, true, None, 11, 7), Err(AppError::Validation(_))));
}

use ryframe_service::dept::{
    check_dept_move, dept_visible, rebase_ancestors, visible_depts, DataScope, DataScopeContext,
    DeptVisibility,
};
use ryframe_service::error::AppError;

#[test]
fn visibility_by_data_scope() {
    let all = DataScopeContext { scope: DataScope::All, dept_id: Some(1), custom_dept_ids: vec![] };
    assert!(matches!(visible_depts(&all), DeptVisibility::Unrestricted));
    let custom = DataScopeContext { scope: DataScope::Custom, dept_id: Some(1), custom_dept_ids: vec![4, 5] };
    assert!(matches!(visible_depts(&custom), DeptVisibility::Only(ids) if ids == vec![4, 5]));
    let own = DataScopeContext { scope: DataScope::SelfOnly, dept_id: Some(7), custom_dept_ids: vec![] };
    assert!(matches!(visible_depts(&own), DeptVisibility::Only(ids) if ids == vec![7]));
    let none = DataScopeContext { scope: DataScope::Dept, dept_id: None, custom_dept_ids: vec![] };
    assert!(matches!(visible_depts(&none), DeptVisibility::Only(ids) if ids.is_empty()));
    let tree = DataScopeContext { scope: DataScope::DeptAndChildren, dept_id: Some(3), custom_dept_ids: vec![] };
    assert!(matches!(visible_depts(&tree), DeptVisibility::WithDescendants(3)));
    assert!(dept_visible(None, 9));
    assert!(dept_visible(Some(&[1, 9]), 9));
    assert!(!dept_visible(Some(&[1, 2]), 9));
}

#[test]
fn moves_are_checked() {
    assert_eq!(check_dept_move(5, Some(1), Some(1), &[]), Ok(false));
    assert_eq!(check_dept_move(5, Some(1), Some(2), &[6, 7]), Ok(true));
    assert!(matches!(check_dept_move(5, Some(1), Some(5), &[]), Err(AppError::Validation(_))));
    assert!(matches!(check_dept_move(5, Some(1), Some(7), &[6, 7]), Err(AppError::Validation(_))));
    assert_eq!(check_dept_move(5, Some(1), None, &[6]), Ok(true));
}

#[test]
fn ancestors_are_rebased_and_restored() {
    let moved = rebase_ancestors("0,1,5,8", "0,1", "0,2,3", 5).unwrap();
    assert_eq!(moved, "0,2,3,5,8");
    assert_eq!(rebase_ancestors(&moved, "0,2,3", "0,1", 5).unwrap(), "0,1,5,8");
    assert!(matches!(rebase_ancestors("0,9,8", "0,1", "0,2", 5), Err(AppError::Internal(_))));
}

//! Roles: data-scope values and the departments of a custom data scope.
use vstd::prelude::*;

use crate::error::{AppError, AppResult};
use crate::idset::IdSet;
use crate::text::{owned, str_eq};

use crate::text::{id_text, signed_decimal};
verus! {

/// The data scope whose departments are chosen by hand.
pub const DATA_SCOPE_CUSTOM: &'static str = "2";

/// The data-scope codes: `1` to `5`.
pub open spec fn data_scope_ok(v: Seq<char>) -> bool {
    v == "1"@ || v == "2"@ || v == "3"@ || v == "4"@ || v == "5"@
}

pub fn validate_data_scope(data_scope: &str) -> (r: AppResult<()>)
    ensures
        r is Ok <==> data_scope_ok(data_scope@),
        r is Err ==> r->Err_0 is Validation,
{
    if str_eq(data_scope, "1") || str_eq(data_scope, "2") || str_eq(data_scope, "3") || str_eq(data_scope, "4")
        || str_eq(data_scope, "5") {
        Ok(())
    } else {
        Err(AppError::Validation(owned("无效的数据范围值")))
    }
}

/// Deleting roles needs at least one role.
pub fn check_roles_selected(ids: &[i64]) -> (r: AppResult<()>)
    ensures
        r is Ok <==> ids@.len() > 0,
        r is Err ==> r->Err_0 is Validation,
{
    if ids.len() == 0 {
        return Err(AppError::Validation(owned("请选择要删除的角色")));
    }
    Ok(())
}

/// The departments a data scope keeps: a custom scope needs at least one department and keeps
/// them sorted, each once; any other scope must name none.
pub fn scope_departments(data_scope: &str, dept_ids: &[i64]) -> (r: AppResult<Vec<i64>>)
    ensures
        data_scope@ == DATA_SCOPE_CUSTOM@ ==> (r is Ok <==> dept_ids@.len() > 0),
        data_scope@ != DATA_SCOPE_CUSTOM@ ==> (r is Ok <==> dept_ids@.len() == 0),
        r is Err ==> r->Err_0 is Validation,
        r matches Ok(v) ==> crate::idset::increasing(v@) && v@.to_set() == dept_ids@.to_set(),
{
    if str_eq(data_scope, DATA_SCOPE_CUSTOM) {
        let mut unique = IdSet::new();
        let mut i: usize = 0;
        while i < dept_ids.len()
            invariant
                i <= dept_ids.len(),
                unique.wf(),
                unique.set() == dept_ids@.take(i as int).to_set(),
            decreases dept_ids.len() - i,
        {
            unique.insert(dept_ids[i]);
            proof {
                assert(dept_ids@.take(i + 1 as int) =~= dept_ids@.take(i as int).push(dept_ids@[i as int]));
                dept_ids@.take(i as int).lemma_push_to_set_commute(dept_ids@[i as int]);
            }
            i = i + 1;
        }
        assert(dept_ids@.take(dept_ids.len() as int) =~= dept_ids@);
        let v = unique.to_vec();
        if v.len() == 0 {
            proof {
                if dept_ids@.len() > 0 {
                    assert(dept_ids@.to_set().contains(dept_ids@[0]));
                }
            }
            return Err(AppError::Validation(owned("自定义数据权限至少需要一个部门")));
        }
        proof {
            if dept_ids@.len() == 0 {
                assert(dept_ids@.to_set() =~= Set::<i64>::empty());
                assert(v@.to_set().contains(v@[0]));
            }
        }
        Ok(v)
    } else {
        if dept_ids.len() != 0 {
            return Err(AppError::Validation(owned("非自定义数据权限不能携带部门")));
        }
        Ok(Vec::new())
    }
}

/// Every custom department must exist in the tenant: as many found as asked for.
pub fn check_departments_found(found: usize, requested: usize) -> (r: AppResult<()>)
    ensures
        r is Ok <==> found == requested,
        r is Err ==> r->Err_0 is Validation,
{
    if found != requested {
        return Err(AppError::Validation(owned("自定义数据权限包含不存在或跨租户的部门")));
    }
    Ok(())
}


/// A stored role. Times are Unix milliseconds.
pub struct StoredRole {
    pub id: i64,
    pub tenant_id: String,
    pub name: String,
    pub code: String,
    pub is_super: bool,
    pub data_scope: String,
    pub status: String,
    pub sort: i32,
    pub remark: Option<String>,
    pub created_at: i64,
    pub updated_at: i64,
}

/// A role as listed, its id in decimal. `dept_ids` is filled only in the detail of a role
/// with custom data scope.
pub struct RoleVo {
    pub id: String,
    pub name: String,
    pub code: String,
    pub is_super: bool,
    pub data_scope: String,
    pub status: String,
    pub sort: i32,
    pub remark: Option<String>,
    pub created_at: i64,
    pub dept_ids: Option<Vec<String>>,
}

/// The listing view of a role, without departments.
pub fn role_vo(r0: StoredRole) -> (r: RoleVo)
    ensures
        r.id@ == signed_decimal(r0.id as int),
        r.name == r0.name,
        r.code == r0.code,
        r.is_super == r0.is_super,
        r.data_scope == r0.data_scope,
        r.status == r0.status,
        r.sort == r0.sort,
        r.remark == r0.remark,
        r.created_at == r0.created_at,
        r.dept_ids is None,
{
    RoleVo {
        id: id_text(r0.id),
        name: r0.name,
        code: r0.code,
        is_super: r0.is_super,
        data_scope: r0.data_scope,
        status: r0.status,
        sort: r0.sort,
        remark: r0.remark,
        created_at: r0.created_at,
        dept_ids: None,
    }
}

/// Whether the detail of a role lists its departments: only under custom data scope.
pub fn role_detail_needs_depts(data_scope: &str) -> (r: bool)
    ensures
        r == (data_scope@ == DATA_SCOPE_CUSTOM@),
{
    str_eq(data_scope, DATA_SCOPE_CUSTOM)
}

/// The detail view of a role: its listing view, and under custom data scope the ids of its
/// departments, in order, in decimal.
pub fn role_detail_vo(r0: StoredRole, dept_ids: &[i64]) -> (r: RoleVo)
    ensures
        r.id@ == signed_decimal(r0.id as int),
        r.name == r0.name,
        r.code == r0.code,
        r.is_super == r0.is_super,
        r.data_scope == r0.data_scope,
        r.status == r0.status,
        r.sort == r0.sort,
        r.remark == r0.remark,
        r.created_at == r0.created_at,
        r0.data_scope@ != DATA_SCOPE_CUSTOM@ ==> r.dept_ids is None,
        r0.data_scope@ == DATA_SCOPE_CUSTOM@ ==> (r.dept_ids matches Some(ids) && ids@.len() == dept_ids@.len()
            && forall|i: int| 0 <= i < dept_ids@.len() ==> #[trigger] ids@[i]@ == signed_decimal(dept_ids@[i] as int)),
{
    let custom = role_detail_needs_depts(r0.data_scope.as_str());
    let mut vo = role_vo(r0);
    if custom {
        let mut ids: Vec<String> = Vec::new();
        let mut i: usize = 0;
        while i < dept_ids.len()
            invariant
                i <= dept_ids.len(),
                ids@.len() == i,
                forall|k: int| 0 <= k < i ==> #[trigger] ids@[k]@ == signed_decimal(dept_ids@[k] as int),
            decreases dept_ids.len() - i,
        {
            ids.push(id_text(dept_ids[i]));
            i = i + 1;
        }
        vo.dept_ids = Some(ids);
    }
    vo
}

} // verus!

//! Departments: which ones a data scope lets a user see, and moving a department subtree.
use vstd::prelude::*;

use crate::error::{AppError, AppResult};
use crate::text::{chars_of, owned, push_signed_decimal, push_str, signed_decimal, string_from_range};
use crate::transfer::keys::starts_with;

use crate::text::{id_text, opt_id, opt_id_text, opt_string_view};
verus! {

/// A department in the tree view.
pub struct DeptTreeNode {
    pub id: String,
    pub name: String,
    pub parent_id: Option<String>,
    pub sort: i32,
    pub status: String,
    pub children: Vec<DeptTreeNode>,
}

/// A department to create.
pub struct CreateDeptCommand {
    pub name: String,
    pub parent_id: Option<i64>,
    pub sort: i32,
}

/// New values of a department.
pub struct UpdateDeptCommand {
    pub id: i64,
    pub name: String,
    pub parent_id: Option<i64>,
    pub sort: i32,
    pub status: String,
}

/// The data a user's role lets them see.
#[derive(Debug, Clone, Copy, PartialEq, Eq, Structural)]
pub enum DataScope {
    All,
    Custom,
    Dept,
    DeptAndChildren,
    SelfOnly,
}

/// A user's data scope with their department and the role's custom departments.
pub struct DataScopeContext {
    pub scope: DataScope,
    pub dept_id: Option<i64>,
    pub custom_dept_ids: Vec<i64>,
}

/// Which departments a scope shows.
pub enum DeptVisibility {
    /// Every department.
    Unrestricted,
    /// Exactly these departments.
    Only(Vec<i64>),
    /// This department and every department below it.
    WithDescendants(i64),
}

/// The departments visible under a data scope: all of them; the custom ones; the user's own
/// (none without a department); or the user's own with its descendants.
pub fn visible_depts(scope: &DataScopeContext) -> (r: DeptVisibility)
    ensures
        match scope.scope {
            DataScope::All => r is Unrestricted,
            DataScope::Custom => r matches DeptVisibility::Only(ids) && ids@ == scope.custom_dept_ids@,
            DataScope::Dept | DataScope::SelfOnly => r matches DeptVisibility::Only(ids) && ids@ == match scope.dept_id {
                Some(d) => seq![d],
                None => Seq::<i64>::empty(),
            },
            DataScope::DeptAndChildren => match scope.dept_id {
                Some(d) => r == DeptVisibility::WithDescendants(d),
                None => r matches DeptVisibility::Only(ids) && ids@.len() == 0,
            },
        },
{
    match scope.scope {
        DataScope::All => DeptVisibility::Unrestricted,
        DataScope::Custom => DeptVisibility::Only(scope.custom_dept_ids.clone()),
        DataScope::Dept | DataScope::SelfOnly => {
            let mut ids: Vec<i64> = Vec::new();
            match scope.dept_id {
                Some(d) => {
                    ids.push(d);
                },
                None => {},
            }
            DeptVisibility::Only(ids)
        },
        DataScope::DeptAndChildren => match scope.dept_id {
            Some(d) => DeptVisibility::WithDescendants(d),
            None => DeptVisibility::Only(Vec::new()),
        },
    }
}

/// Whether department `id` may be shown, given the visible ids (`None`: all are visible).
pub fn dept_visible(visible: Option<&[i64]>, id: i64) -> (r: bool)
    ensures
        r == match visible {
            None => true,
            Some(ids) => ids@.contains(id),
        },
{
    match visible {
        None => true,
        Some(ids) => {
            let mut i: usize = 0;
            while i < ids.len()
                invariant
                    visible == Some(ids),
                    i <= ids.len(),
                    forall|k: int| 0 <= k < i ==> ids@[k] != id,
                decreases ids.len() - i,
            {
                if ids[i] == id {
                    assert(ids@[i as int] == id);
                    assert(ids@.contains(id));
                    return true;
                }
                i = i + 1;
            }
            false
        },
    }
}

/// Checks a department update's new parent: a department cannot be its own parent, nor move
/// below one of its descendants. Returns whether the parent changes.
pub fn check_dept_move(id: i64, current_parent: Option<i64>, new_parent: Option<i64>, descendant_ids: &[i64]) -> (r: AppResult<bool>)
    ensures
        r is Ok <==> new_parent != Some(id) && !(current_parent != new_parent && (new_parent matches Some(p) && descendant_ids@.contains(p))),
        r is Err ==> r->Err_0 is Validation,
        r matches Ok(changed) ==> changed == (current_parent != new_parent),
{
    let parent_changed = current_parent != new_parent;
    if new_parent == Some(id) {
        return Err(AppError::Validation(owned("部门不能将自己设为上级")));
    }
    if parent_changed {
        match new_parent {
            Some(p) => {
                if dept_visible(Some(descendant_ids), p) {
                    return Err(AppError::Validation(owned("不能将部门移动到自己的后代节点")));
                }
            },
            None => {},
        }
    }
    Ok(parent_changed)
}

pub open spec fn subtree_prefix(ancestors: Seq<char>, id: i64) -> Seq<char> {
    ancestors + ","@ + signed_decimal(id as int)
}

/// The ancestors of a descendant after its subtree root `id` moved from under `old_ancestors`
/// to under `new_ancestors`: the `{old},{id}` prefix becomes `{new},{id}`.
pub open spec fn spec_rebase_ancestors(child: Seq<char>, old_ancestors: Seq<char>, new_ancestors: Seq<char>, id: i64) -> Option<Seq<char>> {
    let old_prefix = subtree_prefix(old_ancestors, id);
    if starts_with(child, old_prefix) {
        Some(subtree_prefix(new_ancestors, id) + child.subrange(old_prefix.len() as int, child.len() as int))
    } else {
        None
    }
}

/// Rewrites a descendant's ancestor path for a subtree move; fails with an internal error when
/// the path does not start with the subtree's old prefix.
pub fn rebase_ancestors(child: &str, old_ancestors: &str, new_ancestors: &str, id: i64) -> (r: AppResult<String>)
    ensures
        r is Ok <==> spec_rebase_ancestors(child@, old_ancestors@, new_ancestors@, id) is Some,
        r matches Ok(s) ==> Some(s@) == spec_rebase_ancestors(child@, old_ancestors@, new_ancestors@, id),
        r is Err ==> r->Err_0 is Internal,
{
    let mut old_prefix = owned(old_ancestors);
    push_str(&mut old_prefix, ",");
    push_signed_decimal(&mut old_prefix, id);
    assert(old_prefix@ =~= subtree_prefix(old_ancestors@, id));
    let c = chars_of(child);
    let p = chars_of(old_prefix.as_str());
    if p.len() > c.len() {
        return Err(AppError::Internal(owned("部门祖级路径不一致，无法移动子树")));
    }
    let mut i: usize = 0;
    while i < p.len()
        invariant
            p@ == old_prefix@,
            old_prefix@ == subtree_prefix(old_ancestors@, id),
            c@ == child@,
            p.len() <= c.len(),
            i <= p.len(),
            forall|j: int| 0 <= j < i ==> c@[j] == p@[j],
        decreases p.len() - i,
    {
        if c[i] != p[i] {
            assert(c@.subrange(0, p@.len() as int)[i as int] != p@[i as int]);
            return Err(AppError::Internal(owned("部门祖级路径不一致，无法移动子树")));
        }
        i = i + 1;
    }
    assert(c@.subrange(0, p@.len() as int) =~= p@);
    let suffix = string_from_range(c.as_slice(), p.len(), c.len());
    let mut out = owned(new_ancestors);
    push_str(&mut out, ",");
    push_signed_decimal(&mut out, id);
    push_str(&mut out, suffix.as_str());
    Ok(out)
}

/// Moving a subtree and moving it back restores every descendant's ancestor path.
pub proof fn law_rebase_round_trip(child: Seq<char>, old_ancestors: Seq<char>, new_ancestors: Seq<char>, id: i64)
    requires
        spec_rebase_ancestors(child, old_ancestors, new_ancestors, id) is Some,
    ensures
        spec_rebase_ancestors(
            spec_rebase_ancestors(child, old_ancestors, new_ancestors, id).unwrap(),
            new_ancestors,
            old_ancestors,
            id,
        ) == Some(child),
{
    let op = subtree_prefix(old_ancestors, id);
    let np = subtree_prefix(new_ancestors, id);
    let suffix = child.subrange(op.len() as int, child.len() as int);
    let moved = np + suffix;
    assert(moved.subrange(0, np.len() as int) =~= np);
    assert(moved.subrange(np.len() as int, moved.len() as int) =~= suffix);
    assert(op + suffix =~= child) by {
        assert(child.subrange(0, op.len() as int) == op);
    }
}


/// A stored department. Times are Unix milliseconds.
pub struct StoredDept {
    pub id: i64,
    pub tenant_id: String,
    pub name: String,
    pub parent_id: Option<i64>,
    pub ancestors: String,
    pub sort: i32,
    pub status: String,
    pub remark: Option<String>,
    pub created_at: i64,
    pub updated_at: i64,
}

/// A department as listed, its ids in decimal.
pub struct DeptVo {
    pub id: String,
    pub name: String,
    pub parent_id: Option<String>,
    pub ancestors: String,
    pub sort: i32,
    pub status: String,
    pub remark: Option<String>,
    pub created_at: i64,
}

/// The listing view of a department.
pub fn dept_vo(d: StoredDept) -> (r: DeptVo)
    ensures
        r.id@ == signed_decimal(d.id as int),
        r.name == d.name,
        opt_string_view(r.parent_id) == opt_id_text(d.parent_id),
        r.ancestors == d.ancestors,
        r.sort == d.sort,
        r.status == d.status,
        r.remark == d.remark,
        r.created_at == d.created_at,
{
    DeptVo {
        id: id_text(d.id),
        name: d.name,
        parent_id: opt_id(d.parent_id),
        ancestors: d.ancestors,
        sort: d.sort,
        status: d.status,
        remark: d.remark,
        created_at: d.created_at,
    }
}

} // verus!

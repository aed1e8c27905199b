//! Menu rules: cache keys, route-key normalisation and binding validation.
use vstd::prelude::*;

use crate::error::{AppError, AppResult};
use crate::text::{owned, push_str, trim, trimmed};

use crate::text::{id_text, opt_id, opt_id_text, opt_string_view, signed_decimal};
verus! {

/// Kind of a menu entry.
#[derive(Debug, Clone, Copy, PartialEq, Eq, Structural)]
pub enum MenuType {
    /// Directory, stored as `M`.
    Directory,
    /// Page, stored as `C`.
    Page,
    /// Button-level action, stored as `F`.
    Action,
}

pub open spec fn menu_type_code(t: MenuType) -> Seq<char> {
    match t {
        MenuType::Directory => seq!['M'],
        MenuType::Page => seq!['C'],
        MenuType::Action => seq!['F'],
    }
}

impl MenuType {
    /// The stored code of the menu type.
    pub fn as_str(self) -> (r: String)
        ensures
            r@ == menu_type_code(self),
    {
        let mut r = String::new();
        let c = match self {
            MenuType::Directory => 'M',
            MenuType::Page => 'C',
            MenuType::Action => 'F',
        };
        crate::text::push_char(&mut r, c);
        r
    }
}

/// Command to create a menu entry.
#[derive(Debug)]
pub struct CreateMenuCommand {
    pub name: String,
    pub parent_id: Option<i64>,
    pub menu_type: MenuType,
    pub perm_id: Option<i64>,
    pub route_key: Option<String>,
    pub icon: Option<String>,
    pub sort: i32,
    pub visible: bool,
}

/// Command to update a menu entry.
#[derive(Debug)]
pub struct UpdateMenuCommand {
    pub id: i64,
    pub name: String,
    pub parent_id: Option<i64>,
    pub menu_type: MenuType,
    pub perm_id: Option<i64>,
    pub route_key: Option<String>,
    pub icon: Option<String>,
    pub sort: i32,
    pub visible: bool,
    pub status: String,
}

/// The per-tenant cache key of the menu tree: `tenant:{tenant_id}:sys_menu:tree`.
pub open spec fn spec_menu_tree_cache_key(tenant_id: Seq<char>) -> Seq<char> {
    "tenant:"@ + tenant_id + ":sys_menu:tree"@
}

/// Builds the per-tenant cache key of the menu tree.
pub fn menu_tree_cache_key(tenant_id: &str) -> (r: String)
    ensures
        r@ == spec_menu_tree_cache_key(tenant_id@),
{
    let mut r = owned("tenant:");
    push_str(&mut r, tenant_id);
    push_str(&mut r, ":sys_menu:tree");
    r
}

/// A route key after trimming; blank keys are absent.
pub open spec fn spec_normalize_route_key(route_key: Option<Seq<char>>) -> Option<Seq<char>> {
    match route_key {
        None => None,
        Some(k) => if trim(k).len() == 0 {
            None
        } else {
            Some(trim(k))
        },
    }
}

pub open spec fn opt_view(v: Option<String>) -> Option<Seq<char>> {
    match v {
        None => None,
        Some(s) => Some(s@),
    }
}

/// Trims a route key and drops it when nothing is left.
pub fn normalize_route_key(route_key: Option<String>) -> (r: Option<String>)
    ensures
        opt_view(r) == spec_normalize_route_key(opt_view(route_key)),
{
    match route_key {
        None => None,
        Some(value) => {
            let t = trimmed(value.as_str());
            if t.as_str().is_empty() {
                None
            } else {
                Some(t)
            }
        },
    }
}

/// Which binding rule a menu of the given kind breaks, if any: actions need a permission and
/// no page mapping; pages need both; directories need neither.
pub open spec fn binding_rule_ok(menu_type: MenuType, has_perm: bool, has_route: bool) -> bool {
    match menu_type {
        MenuType::Action => has_perm && !has_route,
        MenuType::Page => has_perm && has_route,
        MenuType::Directory => true,
    }
}

/// Checks the permission and page-mapping requirements of a menu kind.
pub fn check_binding_rule(menu_type: MenuType, perm_id: Option<i64>, route_key: Option<&str>) -> (r:
    AppResult<()>)
    ensures
        r is Ok <==> binding_rule_ok(menu_type, perm_id is Some, route_key is Some),
        r is Err ==> r->Err_0 is Validation,
{
    match menu_type {
        MenuType::Action => {
            if perm_id.is_none() {
                return Err(AppError::Validation(owned("按钮菜单必须关联权限")));
            }
            if route_key.is_some() {
                return Err(AppError::Validation(owned("按钮菜单不能设置页面标识")));
            }
        },
        MenuType::Page => {
            if perm_id.is_none() {
                return Err(AppError::Validation(owned("菜单必须关联权限")));
            }
            if route_key.is_none() {
                return Err(AppError::Validation(owned("菜单缺少可用的前端页面映射")));
            }
        },
        MenuType::Directory => {},
    }
    Ok(())
}

/// Checks the outcome of looking up the bound permission: it must exist in the tenant.
pub fn check_permission_found(perm_id: Option<i64>, found: bool) -> (r: AppResult<()>)
    ensures
        r is Ok <==> (perm_id is None || found),
        r is Err ==> r->Err_0 is Validation,
{
    if perm_id.is_some() && !found {
        return Err(AppError::Validation(owned("关联权限不存在或不属于当前租户")));
    }
    Ok(())
}

/// Checks the owner of a route key: it may only belong to the menu being saved.
pub fn check_route_key_owner(current_id: Option<i64>, owner_id: Option<i64>) -> (r: AppResult<()>)
    ensures
        r is Ok <==> (owner_id is None || owner_id == current_id),
        r is Err ==> r->Err_0 is Conflict,
{
    match owner_id {
        Some(id) => {
            if current_id == Some(id) {
                Ok(())
            } else {
                Err(AppError::Conflict(owned("页面标识已被其他菜单使用")))
            }
        },
        None => Ok(()),
    }
}

/// Checks the requested parent before the ancestor walk: a menu cannot be its own parent.
pub fn check_parent_not_self(current_id: Option<i64>, parent_id: Option<i64>) -> (r: AppResult<()>)
    ensures
        r is Ok <==> (parent_id is None || parent_id != current_id),
        r is Err ==> r->Err_0 is Validation,
{
    match parent_id {
        Some(p) => {
            if current_id == Some(p) {
                Err(AppError::Validation(owned("菜单不能将自己设为上级")))
            } else {
                Ok(())
            }
        },
        None => Ok(()),
    }
}

/// One stored ancestor met during the parent-chain walk.
#[derive(Debug, Clone, Copy)]
pub struct MenuAncestor {
    pub id: i64,
    pub menu_type: MenuType,
    pub parent_id: Option<i64>,
}

/// One step of the parent-chain walk: given the record found for the cursor (or `None` when
/// it is missing), either fails, or returns the next cursor (`None` ends the walk).
pub fn step_ancestor(current_id: Option<i64>, found: Option<MenuAncestor>) -> (r: AppResult<
    Option<i64>,
>)
    ensures
        match found {
            None => r is Err && r->Err_0 is Validation,
            Some(a) => if Some(a.id) == current_id || a.menu_type == MenuType::Action {
                r is Err && r->Err_0 is Validation
            } else {
                r == Ok::<Option<i64>, AppError>(a.parent_id)
            },
        },
{
    match found {
        None => Err(AppError::Validation(owned("上级菜单不存在"))),
        Some(a) => {
            if current_id == Some(a.id) {
                return Err(AppError::Validation(owned("不能将菜单移动到自己的后代节点")));
            }
            if a.menu_type == MenuType::Action {
                return Err(AppError::Validation(owned("按钮不能作为上级菜单")));
            }
            Ok(a.parent_id)
        },
    }
}

/// A menu in the tree view.
pub struct MenuTreeNode {
    pub id: String,
    pub name: String,
    pub parent_id: Option<String>,
    pub menu_type: String,
    pub perm_id: Option<String>,
    pub perm_code: Option<String>,
    pub route_key: Option<String>,
    pub icon: Option<String>,
    pub sort: i32,
    pub visible: bool,
    pub status: String,
    pub children: Vec<MenuTreeNode>,
}


/// A stored menu. Times are Unix milliseconds.
pub struct StoredMenu {
    pub id: i64,
    pub tenant_id: String,
    pub name: String,
    pub parent_id: Option<i64>,
    pub menu_type: String,
    pub perm_id: Option<i64>,
    pub route_key: Option<String>,
    pub icon: Option<String>,
    pub sort: i32,
    pub visible: bool,
    pub status: String,
    pub remark: Option<String>,
    pub created_at: i64,
    pub updated_at: i64,
}

/// A menu as listed, its ids in decimal.
pub struct MenuVo {
    pub id: String,
    pub name: String,
    pub parent_id: Option<String>,
    pub menu_type: String,
    pub perm_id: Option<String>,
    pub route_key: Option<String>,
    pub icon: Option<String>,
    pub sort: i32,
    pub visible: bool,
    pub status: String,
    pub remark: Option<String>,
    pub created_at: i64,
}

/// The listing view of a menu.
pub fn menu_vo(m: StoredMenu) -> (r: MenuVo)
    ensures
        r.id@ == signed_decimal(m.id as int),
        r.name == m.name,
        opt_string_view(r.parent_id) == opt_id_text(m.parent_id),
        r.menu_type == m.menu_type,
        opt_string_view(r.perm_id) == opt_id_text(m.perm_id),
        r.route_key == m.route_key,
        r.icon == m.icon,
        r.sort == m.sort,
        r.visible == m.visible,
        r.status == m.status,
        r.remark == m.remark,
        r.created_at == m.created_at,
{
    MenuVo {
        id: id_text(m.id),
        name: m.name,
        parent_id: opt_id(m.parent_id),
        menu_type: m.menu_type,
        perm_id: opt_id(m.perm_id),
        route_key: m.route_key,
        icon: m.icon,
        sort: m.sort,
        visible: m.visible,
        status: m.status,
        remark: m.remark,
        created_at: m.created_at,
    }
}

} // verus!

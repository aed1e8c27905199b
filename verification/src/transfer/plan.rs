//! Preview plans: how each package resource compares with the target tenant, which changes
//! this build refuses, and how plan items record the outcome of an apply.
use vstd::prelude::*;

use crate::strset::{views, StrMap, StrSet};
use crate::text::{lower_seq, owned, str_eq};
use crate::text::{push_decimal, push_str, byte_len, decimal, utf8_len};
use crate::transfer::keys::{join_path, spec_join_path, strings_view};
use crate::transfer::portable::{
    PortableConfig, PortableDepartment, PortableDictData, PortableDictType, PortableMenu, PortablePermission,
    PortablePost, PortableRole, TenantConfigPackageResources,
};
use crate::transfer::catalog::TenantConfigTargetCatalog;
use crate::transfer::keys::validate_transfer_item_text;
use crate::error::AppResult;
use crate::transfer::keys::{
    is_platform_only_permission, normalize_resource_stable_key, normalize_stable_key,
    permission_contains_wildcard, spec_is_platform_only_permission, spec_normalize_resource_stable_key,
    spec_permission_contains_wildcard,
};

verus! {

pub const ACTION_CREATE: &'static str = "create";
pub const ACTION_UPDATE: &'static str = "update";
pub const ACTION_UNCHANGED: &'static str = "unchanged";
pub const ACTION_BLOCKED: &'static str = "blocked";
pub const OUTCOME_PENDING: &'static str = "pending";
pub const OUTCOME_APPLIED: &'static str = "applied";
pub const OUTCOME_SKIPPED: &'static str = "skipped";

/// What applying the plan does to one resource.
#[derive(Debug, Clone, Copy, PartialEq, Eq, Structural)]
pub enum PlanAction {
    Create,
    Unchanged,
    Update,
    Blocked,
}

impl PlanAction {
    /// The stored name of the action.
    pub fn as_str(self) -> (r: &'static str)
        ensures
            r@ == spec_action_name(self),
    {
        match self {
            PlanAction::Create => ACTION_CREATE,
            PlanAction::Unchanged => ACTION_UNCHANGED,
            PlanAction::Update => ACTION_UPDATE,
            PlanAction::Blocked => ACTION_BLOCKED,
        }
    }
}

pub open spec fn spec_action_name(a: PlanAction) -> Seq<char> {
    match a {
        PlanAction::Create => ACTION_CREATE@,
        PlanAction::Unchanged => ACTION_UNCHANGED@,
        PlanAction::Update => ACTION_UPDATE@,
        PlanAction::Blocked => ACTION_BLOCKED@,
    }
}

/// A plan item as stored.
pub struct TransferItem {
    pub resource_type: String,
    pub stable_key: String,
    pub display_name: String,
    pub action: String,
    pub outcome: String,
    pub detail_code: Option<String>,
    pub detail: Option<String>,
}

/// A plan item as listed.
pub struct TenantConfigTransferItemVo {
    pub resource_type: String,
    pub stable_key: String,
    pub display_name: String,
    pub action: String,
    pub outcome: String,
    pub detail_code: Option<String>,
    pub detail: Option<String>,
}

/// The listing view of a plan item.
pub fn transfer_item_vo(item: TransferItem) -> (r: TenantConfigTransferItemVo)
    ensures
        r.resource_type == item.resource_type,
        r.stable_key == item.stable_key,
        r.display_name == item.display_name,
        r.action == item.action,
        r.outcome == item.outcome,
        r.detail_code == item.detail_code,
        r.detail == item.detail,
{
    TenantConfigTransferItemVo {
        resource_type: item.resource_type,
        stable_key: item.stable_key,
        display_name: item.display_name,
        action: item.action,
        outcome: item.outcome,
        detail_code: item.detail_code,
        detail: item.detail,
    }
}

/// An item's outcome once the plan finished with `outcome`: changing items take it; an
/// unchanged item is marked skipped when the plan was applied, and otherwise kept.
pub open spec fn marked_outcome(item: TransferItem, outcome: Seq<char>) -> Seq<char> {
    if item.action@ != ACTION_UNCHANGED@ {
        outcome
    } else if outcome == OUTCOME_APPLIED@ {
        OUTCOME_SKIPPED@
    } else {
        item.outcome@
    }
}

/// Records the plan's outcome on its items.
pub fn mark_plan_outcome(items: Vec<TransferItem>, outcome: &str) -> (r: Vec<TransferItem>)
    ensures
        r@.len() == items@.len(),
        forall|i: int| 0 <= i < items@.len() ==> {
            &&& (#[trigger] r@[i]).outcome@ == marked_outcome(items@[i], outcome@)
            &&& r@[i].resource_type == items@[i].resource_type
            &&& r@[i].stable_key == items@[i].stable_key
            &&& r@[i].display_name == items@[i].display_name
            &&& r@[i].action == items@[i].action
            &&& r@[i].detail_code == items@[i].detail_code
            &&& r@[i].detail == items@[i].detail
        },
{
    let ghost input = items@;
    let applied = str_eq(outcome, OUTCOME_APPLIED);
    let mut out: Vec<TransferItem> = Vec::new();
    for item in it: items.into_iter()
        invariant
            it.seq() == input,
            applied == (outcome@ == OUTCOME_APPLIED@),
            out@.len() == it.index(),
            forall|i: int| 0 <= i < it.index() ==> {
                &&& (#[trigger] out@[i]).outcome@ == marked_outcome(input[i], outcome@)
                &&& out@[i].resource_type == input[i].resource_type
                &&& out@[i].stable_key == input[i].stable_key
                &&& out@[i].display_name == input[i].display_name
                &&& out@[i].action == input[i].action
                &&& out@[i].detail_code == input[i].detail_code
                &&& out@[i].detail == input[i].detail
            },
    {
        let TransferItem { resource_type, stable_key, display_name, action, outcome: old_outcome, detail_code, detail } = item;
        let new_outcome = if !str_eq(action.as_str(), ACTION_UNCHANGED) {
            owned(outcome)
        } else if applied {
            owned(OUTCOME_SKIPPED)
        } else {
            old_outcome
        };
        out.push(TransferItem { resource_type, stable_key, display_name, action, outcome: new_outcome, detail_code, detail });
    }
    out
}

/// The normalized keys of the created items of each resource type.
pub open spec fn created_key_set(items: Seq<TransferItem>, resource_type: Seq<char>) -> Set<Seq<char>> {
    Set::new(|k: Seq<char>| exists|i: int| 0 <= i < items.len() && #[trigger] items[i].action@ == ACTION_CREATE@
        && items[i].resource_type@ == resource_type
        && spec_normalize_resource_stable_key(items[i].resource_type@, items[i].stable_key@) == k)
}

/// The normalized stable keys of the items of `resource_type` that the plan created, in
/// order, once each (what a rollback deletes).
pub fn created_keys(items: &[TransferItem], resource_type: &str) -> (r: Vec<String>)
    ensures
        crate::strset::sorted_strict(views(r@)),
        views(r@).to_set() == created_key_set(items@, resource_type@),
{
    let mut keys = StrSet::new();
    let mut i: usize = 0;
    while i < items.len()
        invariant
            i <= items.len(),
            keys.wf(),
            keys.set() == created_key_set(items@.take(i as int), resource_type@),
        decreases items.len() - i,
    {
        let item = &items[i];
        let ghost before = keys.set();
        if str_eq(item.action.as_str(), ACTION_CREATE) && str_eq(item.resource_type.as_str(), resource_type) {
            keys.insert(normalize_resource_stable_key(item.resource_type.as_str(), item.stable_key.as_str()));
        }
        proof {
            let t1 = items@.take(i + 1 as int);
            let t0 = items@.take(i as int);
            assert forall|k: Seq<char>| keys.set().contains(k) <==> created_key_set(t1, resource_type@).contains(k) by {
                if created_key_set(t1, resource_type@).contains(k) {
                    let j = choose|j: int| 0 <= j < t1.len() && #[trigger] t1[j].action@ == ACTION_CREATE@
                        && t1[j].resource_type@ == resource_type@
                        && spec_normalize_resource_stable_key(t1[j].resource_type@, t1[j].stable_key@) == k;
                    if j < i {
                        assert(t0[j] == t1[j]);
                        assert(created_key_set(t0, resource_type@).contains(k));
                    }
                }
                if before.contains(k) {
                    let j = choose|j: int| 0 <= j < t0.len() && #[trigger] t0[j].action@ == ACTION_CREATE@
                        && t0[j].resource_type@ == resource_type@
                        && spec_normalize_resource_stable_key(t0[j].resource_type@, t0[j].stable_key@) == k;
                    assert(t1[j] == t0[j]);
                }
                if keys.set().contains(k) && !before.contains(k) {
                    assert(t1[i as int] == items@[i as int]);
                }
            }
            assert(keys.set() =~= created_key_set(t1, resource_type@));
        }
        i = i + 1;
    }
    assert(items@.take(items.len() as int) =~= items@);
    proof {
        crate::strset::lemma_sorted_no_dup(keys.seq());
    }
    keys.into_vec()
}

/// Department paths compare as they are (binary), so normalizing one is a copy.
pub fn normalize_department_path(path: &[String]) -> (r: Vec<String>)
    ensures
        views(r@) == views(path@),
{
    let mut r: Vec<String> = Vec::new();
    let mut i: usize = 0;
    while i < path.len()
        invariant
            i <= path.len(),
            views(r@) == views(path@.take(i as int)),
        decreases path.len() - i,
    {
        r.push(path[i].clone());
        assert(views(path@.take(i + 1 as int)) =~= views(path@.take(i as int)).push(path@[i as int]@));
        assert(views(r@) =~= views(path@.take(i + 1 as int)));
        i = i + 1;
    }
    assert(path@.take(path.len() as int) =~= path@);
    r
}

// ---------------------------------------------------------------------------
// Describing resources
// ---------------------------------------------------------------------------
/// One line of a preview plan.
pub struct PlanItemDescription {
    pub resource_type: String,
    pub stable_key: String,
    pub display_name: String,
    pub action: PlanAction,
    pub detail_code: Option<String>,
    pub detail: Option<String>,
}

/// Create what the target lacks, leave alone what it has as is, update the rest.
pub open spec fn spec_simple_action(found: bool, same: bool) -> PlanAction {
    if !found {
        PlanAction::Create
    } else if same {
        PlanAction::Unchanged
    } else {
        PlanAction::Update
    }
}

pub fn simple_action(found: bool, same: bool) -> (r: PlanAction)
    ensures
        r == spec_simple_action(found, same),
{
    if !found {
        PlanAction::Create
    } else if same {
        PlanAction::Unchanged
    } else {
        PlanAction::Update
    }
}

pub open spec fn opt_view(o: Option<String>) -> Option<Seq<char>> {
    match o {
        Some(s) => Some(s@),
        None => None,
    }
}

pub fn opt_str_eq(a: &Option<String>, b: &Option<String>) -> (r: bool)
    ensures
        r == (opt_view(*a) == opt_view(*b)),
{
    match (a, b) {
        (Some(x), Some(y)) => str_eq(x.as_str(), y.as_str()),
        (None, None) => true,
        _ => false,
    }
}

/// Two package permissions say the same.
pub open spec fn same_permission(a: PortablePermission, b: PortablePermission) -> bool {
    &&& a.code@ == b.code@
    &&& a.name@ == b.name@
    &&& opt_view(a.parent_code) == opt_view(b.parent_code)
    &&& a.permission_type@ == b.permission_type@
    &&& opt_view(a.icon) == opt_view(b.icon)
    &&& a.sort == b.sort
    &&& a.status@ == b.status@
}

fn permission_eq(a: &PortablePermission, b: &PortablePermission) -> (r: bool)
    ensures
        r == same_permission(*a, *b),
{
    str_eq(a.code.as_str(), b.code.as_str()) && str_eq(a.name.as_str(), b.name.as_str()) && opt_str_eq(&a.parent_code, &b.parent_code)
        && str_eq(a.permission_type.as_str(), b.permission_type.as_str()) && opt_str_eq(&a.icon, &b.icon) && a.sort == b.sort
        && str_eq(a.status.as_str(), b.status.as_str())
}

/// Why a permission of the package cannot be applied here, as (code, detail), if it cannot:
/// platform-only and wildcard permissions never travel; an API permission must be registered
/// under exactly its spelling and must not overwrite a target permission of another type; a
/// menu permission must not take the code of a registered API permission nor change a target
/// permission's type.
pub open spec fn permission_block(
    item: PortablePermission,
    target_type: Option<Seq<char>>,
    registered: StrMap<String>,
) -> Option<(Seq<char>, Seq<char>)> {
    let key = lower_seq(item.code@);
    if spec_permission_contains_wildcard(item.code@) || spec_is_platform_only_permission(item.code@) {
        Some(("protected_permission"@, "平台专用权限或超级通配权限不能迁移"@))
    } else if item.permission_type@ == "api"@ {
        match registered.get_spec(key) {
            None => Some(("permission_not_registered"@, "目标环境未注册该接口权限"@)),
            Some(c) => if c@ != item.code@ {
                Some(("permission_catalog_mismatch"@, "接口权限代码大小写与目标注册目录不一致"@))
            } else if target_type matches Some(t) && t != item.permission_type@ {
                Some(("permission_catalog_mismatch"@, "目标端注册权限类型与配置包不一致"@))
            } else {
                None
            },
        }
    } else if registered.get_spec(key) is Some {
        Some(("permission_catalog_mismatch"@, "目标端注册的 API 权限不能被配置包改写为菜单权限"@))
    } else if target_type matches Some(t) && t != item.permission_type@ {
        Some(("permission_catalog_mismatch"@, "目标端注册权限类型与配置包不一致"@))
    } else {
        None
    }
}

/// The last target permission whose code equals `key` once lower-cased.
pub open spec fn last_permission_with_key(ts: Seq<PortablePermission>, key: Seq<char>) -> Option<PortablePermission>
    decreases ts.len(),
{
    if ts.len() == 0 {
        None
    } else if lower_seq(ts.last().code@) == key {
        Some(ts.last())
    } else {
        last_permission_with_key(ts.drop_last(), key)
    }
}

fn find_target_permission<'a>(ts: &'a [PortablePermission], key: &str) -> (r: Option<&'a PortablePermission>)
    ensures
        match r {
            None => last_permission_with_key(ts@, key@) is None,
            Some(t) => last_permission_with_key(ts@, key@) == Some(*t),
        },
{
    let mut i: usize = ts.len();
    assert(ts@.take(ts.len() as int) =~= ts@);
    while i > 0
        invariant
            i <= ts.len(),
            last_permission_with_key(ts@, key@) == last_permission_with_key(ts@.take(i as int), key@),
        decreases i,
    {
        assert(ts@.take(i as int).drop_last() =~= ts@.take(i - 1 as int));
        let k = normalize_stable_key(ts[i - 1].code.as_str());
        if str_eq(k.as_str(), key) {
            return Some(&ts[i - 1]);
        }
        i = i - 1;
    }
    None
}

/// `d` is the plan line of package permission `item` against the target's permissions and
/// the registered API permissions.
pub open spec fn permission_described(
    item: PortablePermission,
    targets: Seq<PortablePermission>,
    registered: StrMap<String>,
    d: PlanItemDescription,
) -> bool {
    let target = last_permission_with_key(targets, lower_seq(item.code@));
    let target_type = match target {
        Some(t) => Some(t.permission_type@),
        None => None,
    };
    let block = permission_block(item, target_type, registered);
    &&& d.resource_type@ == "permission"@
    &&& d.stable_key == item.code
    &&& d.display_name == item.name
    &&& d.action == match block {
        Some(_) => PlanAction::Blocked,
        None => spec_simple_action(target is Some, target matches Some(t) && same_permission(t, item)),
    }
    &&& opt_view(d.detail_code) == match block {
        Some(b) => Some(b.0),
        None => None,
    }
    &&& opt_view(d.detail) == match block {
        Some(b) => Some(b.1),
        None => None,
    }
}

/// The plan line of a package permission against the target's permissions and this build's
/// API permission catalog.
pub fn describe_permission(item: &PortablePermission, targets: &[PortablePermission], registered: &StrMap<String>) -> (r: PlanItemDescription)
    requires
        registered.wf(),
    ensures
        permission_described(*item, targets@, *registered, r),
{
    let key = normalize_stable_key(item.code.as_str());
    let target = find_target_permission(targets, key.as_str());
    let found = target.is_some();
    let same = match target {
        Some(t) => permission_eq(t, item),
        None => false,
    };
    let target_differs = match target {
        Some(t) => !str_eq(t.permission_type.as_str(), item.permission_type.as_str()),
        None => false,
    };
    let block: Option<(&'static str, &'static str)> = if permission_contains_wildcard(item.code.as_str()) || is_platform_only_permission(item.code.as_str()) {
        Some(("protected_permission", "平台专用权限或超级通配权限不能迁移"))
    } else if str_eq(item.permission_type.as_str(), "api") {
        match registered.get(key.as_str()) {
            None => Some(("permission_not_registered", "目标环境未注册该接口权限")),
            Some(c) => {
                if !str_eq(c.as_str(), item.code.as_str()) {
                    Some(("permission_catalog_mismatch", "接口权限代码大小写与目标注册目录不一致"))
                } else if target_differs {
                    Some(("permission_catalog_mismatch", "目标端注册权限类型与配置包不一致"))
                } else {
                    None
                }
            },
        }
    } else if registered.get(key.as_str()).is_some() {
        Some(("permission_catalog_mismatch", "目标端注册的 API 权限不能被配置包改写为菜单权限"))
    } else if target_differs {
        Some(("permission_catalog_mismatch", "目标端注册权限类型与配置包不一致"))
    } else {
        None
    };
    let (action, detail_code, detail) = match block {
        Some((code, text)) => (PlanAction::Blocked, Some(owned(code)), Some(owned(text))),
        None => (simple_action(found, same), None, None),
    };
    PlanItemDescription {
        resource_type: owned("permission"),
        stable_key: item.code.clone(),
        display_name: item.name.clone(),
        action,
        detail_code,
        detail,
    }
}

/// The plan lines of the package's permissions, in order.
pub fn compare_permissions(source: &[PortablePermission], targets: &[PortablePermission], registered: &StrMap<String>) -> (r: Vec<PlanItemDescription>)
    requires
        registered.wf(),
    ensures
        r@.len() == source@.len(),
        forall|i: int| 0 <= i < source@.len() ==> permission_described(source@[i], targets@, *registered, #[trigger] r@[i]),
{
    let mut r: Vec<PlanItemDescription> = Vec::new();
    let mut i: usize = 0;
    while i < source.len()
        invariant
            registered.wf(),
            i <= source.len(),
            r@.len() == i,
            forall|k: int| 0 <= k < i ==> permission_described(source@[k], targets@, *registered, #[trigger] r@[k]),
        decreases source.len() - i,
    {
        r.push(describe_permission(&source[i], targets, registered));
        i = i + 1;
    }
    r
}

/// Two package menus say the same.
pub open spec fn same_menu(a: PortableMenu, b: PortableMenu) -> bool {
    &&& a.stable_key@ == b.stable_key@
    &&& opt_view(a.parent_stable_key) == opt_view(b.parent_stable_key)
    &&& a.name@ == b.name@
    &&& a.menu_type@ == b.menu_type@
    &&& opt_view(a.permission_code) == opt_view(b.permission_code)
    &&& opt_view(a.route_key) == opt_view(b.route_key)
    &&& opt_view(a.icon) == opt_view(b.icon)
    &&& a.sort == b.sort
    &&& a.visible == b.visible
    &&& a.status@ == b.status@
    &&& opt_view(a.remark) == opt_view(b.remark)
}

fn menu_eq(a: &PortableMenu, b: &PortableMenu) -> (r: bool)
    ensures
        r == same_menu(*a, *b),
{
    str_eq(a.stable_key.as_str(), b.stable_key.as_str()) && opt_str_eq(&a.parent_stable_key, &b.parent_stable_key)
        && str_eq(a.name.as_str(), b.name.as_str()) && str_eq(a.menu_type.as_str(), b.menu_type.as_str())
        && opt_str_eq(&a.permission_code, &b.permission_code) && opt_str_eq(&a.route_key, &b.route_key)
        && opt_str_eq(&a.icon, &b.icon) && a.sort == b.sort && a.visible == b.visible
        && str_eq(a.status.as_str(), b.status.as_str()) && opt_str_eq(&a.remark, &b.remark)
}

/// The first target menu whose stable key equals `key` once lower-cased.
pub open spec fn first_menu_with_key(ts: Seq<PortableMenu>, key: Seq<char>) -> Option<PortableMenu>
    decreases ts.len(),
{
    if ts.len() == 0 {
        None
    } else if lower_seq(ts[0].stable_key@) == key {
        Some(ts[0])
    } else {
        first_menu_with_key(ts.drop_first(), key)
    }
}

fn find_target_menu<'a>(ts: &'a [PortableMenu], key: &str) -> (r: Option<&'a PortableMenu>)
    ensures
        match r {
            None => first_menu_with_key(ts@, key@) is None,
            Some(t) => first_menu_with_key(ts@, key@) == Some(*t),
        },
{
    let mut i: usize = 0;
    assert(ts@.skip(0) =~= ts@);
    while i < ts.len()
        invariant
            i <= ts.len(),
            first_menu_with_key(ts@, key@) == first_menu_with_key(ts@.skip(i as int), key@),
        decreases ts.len() - i,
    {
        assert(ts@.skip(i as int).drop_first() =~= ts@.skip(i + 1 as int));
        assert(ts@.skip(i as int)[0] == ts@[i as int]);
        let k = normalize_stable_key(ts[i].stable_key.as_str());
        if str_eq(k.as_str(), key) {
            return Some(&ts[i]);
        }
        i = i + 1;
    }
    assert(ts@.skip(ts.len() as int).len() == 0);
    None
}

/// Why a directory or page of the package cannot be applied here, as (code, detail), if it
/// cannot: its route must be registered in this build, under exactly its spelling and with its
/// menu type. Actions carry no route and are never blocked here.
pub open spec fn menu_block(item: PortableMenu, routes: StrMap<(String, String)>) -> Option<(Seq<char>, Seq<char>)> {
    if item.menu_type@ == "M"@ || item.menu_type@ == "C"@ {
        match item.route_key {
            None => Some(("route_not_registered"@, "目标环境未注册该页面路由"@)),
            Some(rk) => match routes.get_spec(lower_seq(rk@)) {
                None => Some(("route_not_registered"@, "目标环境未注册该页面路由"@)),
                Some(e) => if rk@ != e.0@ {
                    Some(("route_catalog_mismatch"@, "页面 route_key 大小写与目标注册目录不一致"@))
                } else if e.1@ != item.menu_type@ {
                    Some(("route_catalog_mismatch"@, "目标端注册的页面路由类型与配置包不一致"@))
                } else {
                    None
                },
            },
        }
    } else {
        None
    }
}

/// `d` is the plan line of package menu `item` against the target's menus and the
/// registered page routes.
pub open spec fn menu_described(
    item: PortableMenu,
    targets: Seq<PortableMenu>,
    routes: StrMap<(String, String)>,
    d: PlanItemDescription,
) -> bool {
    let target = first_menu_with_key(targets, lower_seq(item.stable_key@));
    let block = menu_block(item, routes);
    &&& d.resource_type@ == "menu"@
    &&& d.stable_key == item.stable_key
    &&& d.display_name == item.name
    &&& d.action == match block {
        Some(_) => PlanAction::Blocked,
        None => spec_simple_action(target is Some, target matches Some(t) && same_menu(t, item)),
    }
    &&& opt_view(d.detail_code) == match block {
        Some(b) => Some(b.0),
        None => None,
    }
    &&& opt_view(d.detail) == match block {
        Some(b) => Some(b.1),
        None => None,
    }
}

/// The plan line of a package menu against the target's menus and this build's page routes.
pub fn describe_menu(item: &PortableMenu, targets: &[PortableMenu], routes: &StrMap<(String, String)>) -> (r: PlanItemDescription)
    requires
        routes.wf(),
    ensures
        menu_described(*item, targets@, *routes, r),
{
    let key = normalize_stable_key(item.stable_key.as_str());
    let target = find_target_menu(targets, key.as_str());
    let found = target.is_some();
    let same = match target {
        Some(t) => menu_eq(t, item),
        None => false,
    };
    let t = item.menu_type.as_str();
    let block: Option<(&'static str, &'static str)> = if str_eq(t, "M") || str_eq(t, "C") {
        match &item.route_key {
            None => Some(("route_not_registered", "目标环境未注册该页面路由")),
            Some(rk) => {
                let rkey = normalize_stable_key(rk.as_str());
                match routes.get(rkey.as_str()) {
                    None => Some(("route_not_registered", "目标环境未注册该页面路由")),
                    Some(e) => {
                        if !str_eq(rk.as_str(), e.0.as_str()) {
                            Some(("route_catalog_mismatch", "页面 route_key 大小写与目标注册目录不一致"))
                        } else if !str_eq(e.1.as_str(), t) {
                            Some(("route_catalog_mismatch", "目标端注册的页面路由类型与配置包不一致"))
                        } else {
                            None
                        }
                    },
                }
            },
        }
    } else {
        None
    };
    let (action, detail_code, detail) = match block {
        Some((code, text)) => (PlanAction::Blocked, Some(owned(code)), Some(owned(text))),
        None => (simple_action(found, same), None, None),
    };
    PlanItemDescription {
        resource_type: owned("menu"),
        stable_key: item.stable_key.clone(),
        display_name: item.name.clone(),
        action,
        detail_code,
        detail,
    }
}

/// The plan lines of the package's menus, in order.
pub fn compare_menus(source: &[PortableMenu], targets: &[PortableMenu], routes: &StrMap<(String, String)>) -> (r: Vec<PlanItemDescription>)
    requires
        routes.wf(),
    ensures
        r@.len() == source@.len(),
        forall|i: int| 0 <= i < source@.len() ==> menu_described(source@[i], targets@, *routes, #[trigger] r@[i]),
{
    let mut r: Vec<PlanItemDescription> = Vec::new();
    let mut i: usize = 0;
    while i < source.len()
        invariant
            routes.wf(),
            i <= source.len(),
            r@.len() == i,
            forall|k: int| 0 <= k < i ==> menu_described(source@[k], targets@, *routes, #[trigger] r@[k]),
        decreases source.len() - i,
    {
        r.push(describe_menu(&source[i], targets, routes));
        i = i + 1;
    }
    r
}

// ---------------------------------------------------------------------------
// Resources compared by key alone
// ---------------------------------------------------------------------------
/// A package record that a plan compares with the target by its stable key.
pub trait PlanRecord: Sized {
    spec fn key_view(&self) -> Seq<char>;

    spec fn display_view(&self) -> Seq<char>;

    /// The two records say the same.
    spec fn same_view(&self, other: &Self) -> bool;

    fn stable_key(&self) -> (r: String)
        ensures
            r@ == self.key_view(),
    ;

    fn display_name(&self) -> (r: String)
        ensures
            r@ == self.display_view(),
    ;

    fn same_as(&self, other: &Self) -> (r: bool)
        ensures
            r == self.same_view(other),
    ;
}

/// The last target record whose normalized key is `key`.
pub open spec fn last_record_with_key<T: PlanRecord>(ts: Seq<T>, resource_type: Seq<char>, key: Seq<char>) -> Option<T>
    decreases ts.len(),
{
    if ts.len() == 0 {
        None
    } else if spec_normalize_resource_stable_key(resource_type, ts.last().key_view()) == key {
        Some(ts.last())
    } else {
        last_record_with_key(ts.drop_last(), resource_type, key)
    }
}

/// `d` is the plan line of `item` of `resource_type` against the target's records.
pub open spec fn record_described<T: PlanRecord>(resource_type: Seq<char>, item: T, targets: Seq<T>, d: PlanItemDescription) -> bool {
    let target = last_record_with_key(targets, resource_type, spec_normalize_resource_stable_key(resource_type, item.key_view()));
    &&& d.resource_type@ == resource_type
    &&& d.stable_key@ == item.key_view()
    &&& d.display_name@ == item.display_view()
    &&& d.action == spec_simple_action(target is Some, target matches Some(t) && t.same_view(&item))
    &&& d.detail_code is None
    &&& d.detail is None
}

fn find_target_record<'a, T: PlanRecord>(ts: &'a [T], resource_type: &str, key: &str) -> (r: Option<&'a T>)
    ensures
        match r {
            None => last_record_with_key(ts@, resource_type@, key@) is None,
            Some(t) => last_record_with_key(ts@, resource_type@, key@) == Some(*t),
        },
{
    let mut i: usize = ts.len();
    assert(ts@.take(ts.len() as int) =~= ts@);
    while i > 0
        invariant
            i <= ts.len(),
            last_record_with_key(ts@, resource_type@, key@) == last_record_with_key(ts@.take(i as int), resource_type@, key@),
        decreases i,
    {
        assert(ts@.take(i as int).drop_last() =~= ts@.take(i - 1 as int));
        let k = ts[i - 1].stable_key();
        let nk = normalize_resource_stable_key(resource_type, k.as_str());
        if str_eq(nk.as_str(), key) {
            return Some(&ts[i - 1]);
        }
        i = i - 1;
    }
    None
}

/// The plan lines of records compared by key: create, unchanged or update.
pub fn compare_simple<T: PlanRecord>(resource_type: &str, source: &[T], targets: &[T]) -> (r: Vec<PlanItemDescription>)
    ensures
        r@.len() == source@.len(),
        forall|i: int| 0 <= i < source@.len() ==> record_described(resource_type@, source@[i], targets@, #[trigger] r@[i]),
{
    let mut r: Vec<PlanItemDescription> = Vec::new();
    let mut i: usize = 0;
    while i < source.len()
        invariant
            i <= source.len(),
            r@.len() == i,
            forall|k: int| 0 <= k < i ==> record_described(resource_type@, source@[k], targets@, #[trigger] r@[k]),
        decreases source.len() - i,
    {
        let item = &source[i];
        let key = item.stable_key();
        let nk = normalize_resource_stable_key(resource_type, key.as_str());
        let target = find_target_record(targets, resource_type, nk.as_str());
        let found = target.is_some();
        let same = match target {
            Some(t) => t.same_as(item),
            None => false,
        };
        r.push(PlanItemDescription {
            resource_type: owned(resource_type),
            stable_key: key,
            display_name: item.display_name(),
            action: simple_action(found, same),
            detail_code: None,
            detail: None,
        });
        i = i + 1;
    }
    r
}

pub open spec fn views_eq(a: Seq<String>, b: Seq<String>) -> bool {
    views(a) == views(b)
}

fn strings_eq(a: &[String], b: &[String]) -> (r: bool)
    ensures
        r == views_eq(a@, b@),
{
    if a.len() != b.len() {
        proof {
            assert(views(a@).len() != views(b@).len());
        }
        return false;
    }
    let mut i: usize = 0;
    while i < a.len()
        invariant
            a.len() == b.len(),
            i <= a.len(),
            forall|k: int| 0 <= k < i ==> a@[k]@ == b@[k]@,
        decreases a.len() - i,
    {
        if !str_eq(a[i].as_str(), b[i].as_str()) {
            proof {
                assert(views(a@)[i as int] != views(b@)[i as int]);
            }
            return false;
        }
        i = i + 1;
    }
    assert(views(a@) =~= views(b@));
    true
}

pub open spec fn paths_view(v: Seq<Vec<String>>) -> Seq<Seq<Seq<char>>> {
    v.map_values(|p: Vec<String>| views(p@))
}

fn paths_eq(a: &[Vec<String>], b: &[Vec<String>]) -> (r: bool)
    ensures
        r == (paths_view(a@) == paths_view(b@)),
{
    if a.len() != b.len() {
        proof {
            assert(paths_view(a@).len() != paths_view(b@).len());
        }
        return false;
    }
    let mut i: usize = 0;
    while i < a.len()
        invariant
            a.len() == b.len(),
            i <= a.len(),
            forall|k: int| 0 <= k < i ==> views(a@[k]@) == views(b@[k]@),
        decreases a.len() - i,
    {
        if !strings_eq(a[i].as_slice(), b[i].as_slice()) {
            proof {
                assert(paths_view(a@)[i as int] != paths_view(b@)[i as int]);
            }
            return false;
        }
        i = i + 1;
    }
    assert(paths_view(a@) =~= paths_view(b@));
    true
}

impl PlanRecord for PortableDepartment {
    /// A department is keyed by its joined path and shown by its own name.
    open spec fn key_view(&self) -> Seq<char> {
        spec_join_path(views(self.path@))
    }

    open spec fn display_view(&self) -> Seq<char> {
        if self.path@.len() == 0 {
            Seq::empty()
        } else {
            self.path@.last()@
        }
    }

    open spec fn same_view(&self, other: &Self) -> bool {
        views(self.path@) == views(other.path@) && self.sort == other.sort && self.status@ == other.status@
            && opt_view(self.remark) == opt_view(other.remark)
    }

    fn stable_key(&self) -> (r: String) {
        let r = join_path(self.path.as_slice());
        assert(strings_view(self.path@) =~= views(self.path@));
        r
    }

    fn display_name(&self) -> (r: String) {
        if self.path.len() == 0 {
            String::new()
        } else {
            self.path[self.path.len() - 1].clone()
        }
    }

    fn same_as(&self, other: &Self) -> (r: bool) {
        strings_eq(self.path.as_slice(), other.path.as_slice()) && self.sort == other.sort
            && str_eq(self.status.as_str(), other.status.as_str()) && opt_str_eq(&self.remark, &other.remark)
    }
}

impl PlanRecord for PortablePost {
    open spec fn key_view(&self) -> Seq<char> {
        self.code@
    }

    open spec fn display_view(&self) -> Seq<char> {
        self.name@
    }

    open spec fn same_view(&self, other: &Self) -> bool {
        self.code@ == other.code@ && self.name@ == other.name@ && self.sort == other.sort && self.status@
            == other.status@ && opt_view(self.remark) == opt_view(other.remark)
    }

    fn stable_key(&self) -> (r: String) {
        self.code.clone()
    }

    fn display_name(&self) -> (r: String) {
        self.name.clone()
    }

    fn same_as(&self, other: &Self) -> (r: bool) {
        str_eq(self.code.as_str(), other.code.as_str()) && str_eq(self.name.as_str(), other.name.as_str())
            && self.sort == other.sort && str_eq(self.status.as_str(), other.status.as_str()) && opt_str_eq(
            &self.remark,
            &other.remark,
        )
    }
}

impl PlanRecord for PortableDictType {
    open spec fn key_view(&self) -> Seq<char> {
        self.code@
    }

    open spec fn display_view(&self) -> Seq<char> {
        self.name@
    }

    open spec fn same_view(&self, other: &Self) -> bool {
        self.code@ == other.code@ && self.name@ == other.name@ && self.status@ == other.status@ && opt_view(
            self.remark,
        ) == opt_view(other.remark)
    }

    fn stable_key(&self) -> (r: String) {
        self.code.clone()
    }

    fn display_name(&self) -> (r: String) {
        self.name.clone()
    }

    fn same_as(&self, other: &Self) -> (r: bool) {
        str_eq(self.code.as_str(), other.code.as_str()) && str_eq(self.name.as_str(), other.name.as_str())
            && str_eq(self.status.as_str(), other.status.as_str()) && opt_str_eq(&self.remark, &other.remark)
    }
}

impl PlanRecord for PortableDictData {
    /// A dictionary entry is keyed by `{byte length of type}:{type}:{value}`.
    open spec fn key_view(&self) -> Seq<char> {
        decimal(utf8_len(self.type_code@)) + ":"@ + self.type_code@ + ":"@ + self.value@
    }

    open spec fn display_view(&self) -> Seq<char> {
        self.label@
    }

    open spec fn same_view(&self, other: &Self) -> bool {
        self.type_code@ == other.type_code@ && self.value@ == other.value@ && self.label@ == other.label@
            && self.sort == other.sort && self.status@ == other.status@ && opt_view(self.css_class) == opt_view(
            other.css_class,
        ) && opt_view(self.remark) == opt_view(other.remark)
    }

    fn stable_key(&self) -> (r: String) {
        let mut r = String::new();
        push_decimal(&mut r, byte_len(self.type_code.as_str()) as u64);
        push_str(&mut r, ":");
        push_str(&mut r, self.type_code.as_str());
        push_str(&mut r, ":");
        push_str(&mut r, self.value.as_str());
        assert(r@ =~= self.key_view());
        r
    }

    fn display_name(&self) -> (r: String) {
        self.label.clone()
    }

    fn same_as(&self, other: &Self) -> (r: bool) {
        str_eq(self.type_code.as_str(), other.type_code.as_str()) && str_eq(self.value.as_str(), other.value.as_str())
            && str_eq(self.label.as_str(), other.label.as_str()) && self.sort == other.sort && str_eq(
            self.status.as_str(),
            other.status.as_str(),
        ) && opt_str_eq(&self.css_class, &other.css_class) && opt_str_eq(&self.remark, &other.remark)
    }
}

impl PlanRecord for PortableConfig {
    open spec fn key_view(&self) -> Seq<char> {
        self.key@
    }

    open spec fn display_view(&self) -> Seq<char> {
        self.name@
    }

    open spec fn same_view(&self, other: &Self) -> bool {
        self.key@ == other.key@ && self.name@ == other.name@ && self.value@ == other.value@ && opt_view(self.remark)
            == opt_view(other.remark)
    }

    fn stable_key(&self) -> (r: String) {
        self.key.clone()
    }

    fn display_name(&self) -> (r: String) {
        self.name.clone()
    }

    fn same_as(&self, other: &Self) -> (r: bool) {
        str_eq(self.key.as_str(), other.key.as_str()) && str_eq(self.name.as_str(), other.name.as_str()) && str_eq(
            self.value.as_str(),
            other.value.as_str(),
        ) && opt_str_eq(&self.remark, &other.remark)
    }
}

impl PlanRecord for PortableRole {
    open spec fn key_view(&self) -> Seq<char> {
        self.code@
    }

    open spec fn display_view(&self) -> Seq<char> {
        self.name@
    }

    open spec fn same_view(&self, other: &Self) -> bool {
        &&& self.code@ == other.code@
        &&& self.name@ == other.name@
        &&& self.data_scope@ == other.data_scope@
        &&& self.status@ == other.status@
        &&& self.sort == other.sort
        &&& opt_view(self.remark) == opt_view(other.remark)
        &&& views(self.permission_codes@) == views(other.permission_codes@)
        &&& paths_view(self.custom_department_paths@) == paths_view(other.custom_department_paths@)
    }

    fn stable_key(&self) -> (r: String) {
        self.code.clone()
    }

    fn display_name(&self) -> (r: String) {
        self.name.clone()
    }

    fn same_as(&self, other: &Self) -> (r: bool) {
        str_eq(self.code.as_str(), other.code.as_str()) && str_eq(self.name.as_str(), other.name.as_str()) && str_eq(
            self.data_scope.as_str(),
            other.data_scope.as_str(),
        ) && str_eq(self.status.as_str(), other.status.as_str()) && self.sort == other.sort && opt_str_eq(
            &self.remark,
            &other.remark,
        ) && strings_eq(self.permission_codes.as_slice(), other.permission_codes.as_slice()) && paths_eq(
            self.custom_department_paths.as_slice(),
            other.custom_department_paths.as_slice(),
        )
    }
}

// ---------------------------------------------------------------------------
// The whole plan
// ---------------------------------------------------------------------------
fn append(out: &mut Vec<PlanItemDescription>, mut more: Vec<PlanItemDescription>)
    ensures
        final(out)@ == old(out)@ + more@,
{
    out.append(&mut more);
}

/// The plan lines of a package against a target tenant: departments, posts, dictionary types,
/// dictionary entries, configuration values, permissions, menus and roles, each in package
/// order.
pub fn compare_resources(
    source: &TenantConfigPackageResources,
    target: &TenantConfigPackageResources,
    catalog: &TenantConfigTargetCatalog,
) -> (r: Vec<PlanItemDescription>)
    requires
        catalog.wf(),
    ensures
        ({
            let n0 = 0int;
            let n1 = n0 + source.departments@.len();
            let n2 = n1 + source.posts@.len();
            let n3 = n2 + source.dict_types@.len();
            let n4 = n3 + source.dict_data@.len();
            let n5 = n4 + source.configs@.len();
            let n6 = n5 + source.permissions@.len();
            let n7 = n6 + source.menus@.len();
            let n8 = n7 + source.roles@.len();
            &&& r@.len() == n8
            &&& forall|i: int| 0 <= i < source.departments@.len() ==> record_described("department"@, #[trigger] source.departments@[i], target.departments@, r@[n0 + i])
            &&& forall|i: int| 0 <= i < source.posts@.len() ==> record_described("post"@, #[trigger] source.posts@[i], target.posts@, r@[n1 + i])
            &&& forall|i: int| 0 <= i < source.dict_types@.len() ==> record_described("dict_type"@, #[trigger] source.dict_types@[i], target.dict_types@, r@[n2 + i])
            &&& forall|i: int| 0 <= i < source.dict_data@.len() ==> record_described("dict_data"@, #[trigger] source.dict_data@[i], target.dict_data@, r@[n3 + i])
            &&& forall|i: int| 0 <= i < source.configs@.len() ==> record_described("config"@, #[trigger] source.configs@[i], target.configs@, r@[n4 + i])
            &&& forall|i: int| 0 <= i < source.permissions@.len() ==> permission_described(#[trigger] source.permissions@[i], target.permissions@, catalog.api_permission_codes, r@[n5 + i])
            &&& forall|i: int| 0 <= i < source.menus@.len() ==> menu_described(#[trigger] source.menus@[i], target.menus@, catalog.page_routes, r@[n6 + i])
            &&& forall|i: int| 0 <= i < source.roles@.len() ==> record_described("role"@, #[trigger] source.roles@[i], target.roles@, r@[n7 + i])
        }),
{
    let d1 = compare_simple("department", source.departments.as_slice(), target.departments.as_slice());
    let d2 = compare_simple("post", source.posts.as_slice(), target.posts.as_slice());
    let d3 = compare_simple("dict_type", source.dict_types.as_slice(), target.dict_types.as_slice());
    let d4 = compare_simple("dict_data", source.dict_data.as_slice(), target.dict_data.as_slice());
    let d5 = compare_simple("config", source.configs.as_slice(), target.configs.as_slice());
    let d6 = compare_permissions(source.permissions.as_slice(), target.permissions.as_slice(), &catalog.api_permission_codes);
    let d7 = compare_menus(source.menus.as_slice(), target.menus.as_slice(), &catalog.page_routes);
    let d8 = compare_simple("role", source.roles.as_slice(), target.roles.as_slice());
    let ghost g1 = d1@;
    let ghost g2 = d2@;
    let ghost g3 = d3@;
    let ghost g4 = d4@;
    let ghost g5 = d5@;
    let ghost g6 = d6@;
    let ghost g7 = d7@;
    let ghost g8 = d8@;
    let mut out: Vec<PlanItemDescription> = Vec::new();
    append(&mut out, d1);
    append(&mut out, d2);
    append(&mut out, d3);
    append(&mut out, d4);
    append(&mut out, d5);
    append(&mut out, d6);
    append(&mut out, d7);
    append(&mut out, d8);
    proof {
        let all = Seq::<PlanItemDescription>::empty() + g1 + g2 + g3 + g4 + g5 + g6 + g7 + g8;
        assert(out@ == all);
        let n1 = g1.len();
        let n2 = n1 + g2.len();
        let n3 = n2 + g3.len();
        let n4 = n3 + g4.len();
        let n5 = n4 + g5.len();
        let n6 = n5 + g6.len();
        let n7 = n6 + g7.len();
        assert forall|i: int| 0 <= i < g1.len() implies out@[i] == g1[i] by {}
        assert forall|i: int| 0 <= i < g2.len() implies out@[n1 + i] == g2[i] by {}
        assert forall|i: int| 0 <= i < g3.len() implies out@[n2 + i] == g3[i] by {}
        assert forall|i: int| 0 <= i < g4.len() implies out@[n3 + i] == g4[i] by {}
        assert forall|i: int| 0 <= i < g5.len() implies out@[n4 + i] == g5[i] by {}
        assert forall|i: int| 0 <= i < g6.len() implies out@[n5 + i] == g6[i] by {}
        assert forall|i: int| 0 <= i < g7.len() implies out@[n6 + i] == g7[i] by {}
        assert forall|i: int| 0 <= i < g8.len() implies out@[n7 + i] == g8[i] by {}
    }
    out
}

/// How many plan lines carry each action name.
pub open spec fn action_count(ds: Seq<PlanItemDescription>, name: Seq<char>) -> nat
    decreases ds.len(),
{
    if ds.len() == 0 {
        0
    } else {
        action_count(ds.drop_last(), name) + if spec_action_name(ds.last().action) == name {
            1nat
        } else {
            0nat
        }
    }
}

/// A plan line's texts fit their columns: the key at most 384 characters, the name at most 255.
pub open spec fn description_fits(d: PlanItemDescription) -> bool {
    d.stable_key@.len() <= 384 && d.display_name@.len() <= 255
}

/// Turns plan lines into pending plan items with a count per action; a key or name too long
/// for its column is a validation error.
pub fn build_plan_items(descriptions: Vec<PlanItemDescription>) -> (r: AppResult<(StrMap<u64>, Vec<TransferItem>)>)
    ensures
        r is Ok <==> forall|i: int| 0 <= i < descriptions@.len() ==> description_fits(#[trigger] descriptions@[i]),
        r is Err ==> r->Err_0 is Validation,
        r matches Ok((counts, items)) ==> {
            &&& counts.wf()
            &&& items@.len() == descriptions@.len()
            &&& forall|i: int| 0 <= i < descriptions@.len() ==> {
                &&& (#[trigger] items@[i]).resource_type == descriptions@[i].resource_type
                &&& items@[i].stable_key == descriptions@[i].stable_key
                &&& items@[i].display_name == descriptions@[i].display_name
                &&& items@[i].action@ == spec_action_name(descriptions@[i].action)
                &&& items@[i].outcome@ == OUTCOME_PENDING@
                &&& items@[i].detail_code == descriptions@[i].detail_code
                &&& items@[i].detail == descriptions@[i].detail
            }
            &&& forall|name: Seq<char>| #[trigger] counts.get_spec(name) == if action_count(descriptions@, name) > 0 {
                Some(action_count(descriptions@, name) as u64)
            } else {
                None
            }
        },
{
    let ghost input = descriptions@;
    let n: usize = descriptions.len();
    let mut counts: StrMap<u64> = StrMap::new();
    let mut items: Vec<TransferItem> = Vec::new();
    let mut k: usize = 0;
    for d in it: descriptions.into_iter()
        invariant
            it.seq() == input,
            k == it.index(),
            counts.wf(),
            items@.len() == k,
            k <= input.len(),
            input.len() == n,
            forall|i: int| 0 <= i < k ==> description_fits(#[trigger] input[i]),
            forall|i: int| 0 <= i < k ==> {
                &&& (#[trigger] items@[i]).resource_type == input[i].resource_type
                &&& items@[i].stable_key == input[i].stable_key
                &&& items@[i].display_name == input[i].display_name
                &&& items@[i].action@ == spec_action_name(input[i].action)
                &&& items@[i].outcome@ == OUTCOME_PENDING@
                &&& items@[i].detail_code == input[i].detail_code
                &&& items@[i].detail == input[i].detail
            },
            forall|name: Seq<char>| #[trigger] counts.get_spec(name) == if action_count(input.take(k as int), name) > 0 {
                Some(action_count(input.take(k as int), name) as u64)
            } else {
                None
            },
            forall|name: Seq<char>| #[trigger] action_count(input.take(k as int), name) <= k,
    {
        validate_transfer_item_text(d.stable_key.as_str(), 384, "配置稳定键")?;
        validate_transfer_item_text(d.display_name.as_str(), 255, "配置显示名称")?;
        let name = d.action.as_str();
        let ghost before = counts;
        proof {
            assert(input.take(k + 1).drop_last() =~= input.take(k as int));
            assert(input.take(k + 1).last() == d);
        }
        let current: u64 = match counts.get(name) {
            Some(c) => *c,
            None => 0,
        };
        proof {
            assert(action_count(input.take(k as int), name@) <= k);
        }
        counts.upsert(owned(name), current + 1);
        proof {
            assert forall|nm: Seq<char>| #[trigger] action_count(input.take(k + 1), nm) <= k + 1 by {
                assert(input.take(k + 1).drop_last() =~= input.take(k as int));
                assert(action_count(input.take(k as int), nm) <= k);
            }
        }
        let PlanItemDescription { resource_type, stable_key, display_name, action, detail_code, detail } = d;
        items.push(TransferItem {
            resource_type,
            stable_key,
            display_name,
            action: owned(action.as_str()),
            outcome: owned(OUTCOME_PENDING),
            detail_code,
            detail,
        });
        k = k + 1;
    }
    proof {
        assert(input.take(input.len() as int) =~= input);
    }
    Ok((counts, items))
}

/// No two permissions of `ps` share a code once lower-cased.
pub open spec fn permission_keys_distinct(ps: Seq<PortablePermission>) -> bool {
    forall|j: int, k: int|
        0 <= j < ps.len() && 0 <= k < ps.len() && j != k ==> lower_seq(#[trigger] ps[j].code@) != lower_seq(
            #[trigger] ps[k].code@,
        )
}

/// No two menus of `ms` share a stable key once lower-cased.
pub open spec fn menu_keys_distinct(ms: Seq<PortableMenu>) -> bool {
    forall|j: int, k: int|
        0 <= j < ms.len() && 0 <= k < ms.len() && j != k ==> lower_seq(#[trigger] ms[j].stable_key@) != lower_seq(
            #[trigger] ms[k].stable_key@,
        )
}

proof fn lemma_permission_finds_itself(ps: Seq<PortablePermission>, i: int)
    requires
        0 <= i < ps.len(),
        permission_keys_distinct(ps),
    ensures
        last_permission_with_key(ps, lower_seq(ps[i].code@)) == Some(ps[i]),
    decreases ps.len(),
{
    if i != ps.len() - 1 {
        let rest = ps.drop_last();
        assert(lower_seq(ps[ps.len() - 1].code@) != lower_seq(ps[i].code@));
        assert(rest[i] == ps[i]);
        assert forall|j: int, k: int|
            0 <= j < rest.len() && 0 <= k < rest.len() && j != k implies lower_seq(#[trigger] rest[j].code@) != lower_seq(
                #[trigger] rest[k].code@,
            ) by {
            assert(rest[j] == ps[j] && rest[k] == ps[k]);
        }
        lemma_permission_finds_itself(rest, i);
    }
}

proof fn lemma_menu_finds_itself(ms: Seq<PortableMenu>, i: int)
    requires
        0 <= i < ms.len(),
        menu_keys_distinct(ms),
    ensures
        first_menu_with_key(ms, lower_seq(ms[i].stable_key@)) == Some(ms[i]),
    decreases ms.len(),
{
    if i != 0 {
        let rest = ms.drop_first();
        assert(lower_seq(ms[0].stable_key@) != lower_seq(ms[i].stable_key@));
        assert(rest[i - 1] == ms[i]);
        assert forall|j: int, k: int|
            0 <= j < rest.len() && 0 <= k < rest.len() && j != k implies lower_seq(#[trigger] rest[j].stable_key@)
                != lower_seq(#[trigger] rest[k].stable_key@) by {
            assert(rest[j] == ms[j + 1] && rest[k] == ms[k + 1]);
        }
        lemma_menu_finds_itself(rest, i - 1);
    }
}

/// Comparing a package's permissions with a target that holds exactly them (their codes
/// distinct) plans no change: every line is unchanged, or blocked by the catalog.
pub proof fn law_permissions_against_themselves_are_unchanged(
    ps: Seq<PortablePermission>,
    registered: StrMap<String>,
    lines: Seq<PlanItemDescription>,
)
    requires
        permission_keys_distinct(ps),
        lines.len() == ps.len(),
        forall|i: int| 0 <= i < ps.len() ==> permission_described(ps[i], ps, registered, #[trigger] lines[i]),
    ensures
        forall|i: int|
            0 <= i < lines.len() ==> (#[trigger] lines[i]).action == PlanAction::Unchanged || lines[i].action
                == PlanAction::Blocked,
{
    assert forall|i: int| 0 <= i < lines.len() implies (#[trigger] lines[i]).action == PlanAction::Unchanged
        || lines[i].action == PlanAction::Blocked by {
        assert(permission_described(ps[i], ps, registered, lines[i]));
        lemma_permission_finds_itself(ps, i);
    }
}

/// Comparing a package's menus with a target that holds exactly them (their keys distinct)
/// plans no change: every line is unchanged, or blocked by the route catalog.
pub proof fn law_menus_against_themselves_are_unchanged(
    ms: Seq<PortableMenu>,
    routes: StrMap<(String, String)>,
    lines: Seq<PlanItemDescription>,
)
    requires
        menu_keys_distinct(ms),
        lines.len() == ms.len(),
        forall|i: int| 0 <= i < ms.len() ==> menu_described(ms[i], ms, routes, #[trigger] lines[i]),
    ensures
        forall|i: int|
            0 <= i < lines.len() ==> (#[trigger] lines[i]).action == PlanAction::Unchanged || lines[i].action
                == PlanAction::Blocked,
{
    assert forall|i: int| 0 <= i < lines.len() implies (#[trigger] lines[i]).action == PlanAction::Unchanged
        || lines[i].action == PlanAction::Blocked by {
        assert(menu_described(ms[i], ms, routes, lines[i]));
        lemma_menu_finds_itself(ms, i);
    }
}

/// No two records of `rs` share a normalized key.
pub open spec fn record_keys_distinct<T: PlanRecord>(resource_type: Seq<char>, rs: Seq<T>) -> bool {
    forall|j: int, k: int|
        0 <= j < rs.len() && 0 <= k < rs.len() && j != k ==> spec_normalize_resource_stable_key(
            resource_type,
            #[trigger] rs[j].key_view(),
        ) != spec_normalize_resource_stable_key(resource_type, #[trigger] rs[k].key_view())
}

proof fn lemma_record_finds_itself<T: PlanRecord>(resource_type: Seq<char>, rs: Seq<T>, i: int)
    requires
        0 <= i < rs.len(),
        record_keys_distinct(resource_type, rs),
    ensures
        last_record_with_key(rs, resource_type, spec_normalize_resource_stable_key(resource_type, rs[i].key_view()))
            == Some(rs[i]),
    decreases rs.len(),
{
    if i != rs.len() - 1 {
        let rest = rs.drop_last();
        assert(spec_normalize_resource_stable_key(resource_type, rs[rs.len() - 1].key_view())
            != spec_normalize_resource_stable_key(resource_type, rs[i].key_view()));
        assert(rest[i] == rs[i]);
        assert forall|j: int, k: int|
            0 <= j < rest.len() && 0 <= k < rest.len() && j != k implies spec_normalize_resource_stable_key(
                resource_type,
                #[trigger] rest[j].key_view(),
            ) != spec_normalize_resource_stable_key(resource_type, #[trigger] rest[k].key_view()) by {
            assert(rest[j] == rs[j] && rest[k] == rs[k]);
        }
        lemma_record_finds_itself(resource_type, rest, i);
    }
}

/// Comparing records with a target that holds exactly them (their keys distinct, and each
/// record saying the same as itself) plans no change: every line is unchanged.
pub proof fn law_records_against_themselves_are_unchanged<T: PlanRecord>(
    resource_type: Seq<char>,
    rs: Seq<T>,
    lines: Seq<PlanItemDescription>,
)
    requires
        record_keys_distinct(resource_type, rs),
        forall|i: int| 0 <= i < rs.len() ==> (#[trigger] rs[i]).same_view(&rs[i]),
        lines.len() == rs.len(),
        forall|i: int| 0 <= i < rs.len() ==> record_described(resource_type, rs[i], rs, #[trigger] lines[i]),
    ensures
        forall|i: int| 0 <= i < lines.len() ==> (#[trigger] lines[i]).action == PlanAction::Unchanged,
{
    assert forall|i: int| 0 <= i < lines.len() implies (#[trigger] lines[i]).action == PlanAction::Unchanged by {
        assert(record_described(resource_type, rs[i], rs, lines[i]));
        assert(rs[i].same_view(&rs[i]));
        lemma_record_finds_itself(resource_type, rs, i);
    }
}

/// A record the target lacks is planned for creation.
pub proof fn law_record_missing_from_target_is_created<T: PlanRecord>(
    resource_type: Seq<char>,
    item: T,
    targets: Seq<T>,
    d: PlanItemDescription,
)
    requires
        record_described(resource_type, item, targets, d),
        last_record_with_key(targets, resource_type, spec_normalize_resource_stable_key(resource_type, item.key_view()))
            is None,
    ensures
        d.action == PlanAction::Create,
{
}

/// A department found in the target is unchanged exactly when the target's department has
/// the same path, sort, status and remark; any of them differing makes it an update.
pub proof fn law_department_line_unchanged_only_when_equal(
    resource_type: Seq<char>,
    item: PortableDepartment,
    targets: Seq<PortableDepartment>,
    t: PortableDepartment,
    d: PlanItemDescription,
)
    requires
        record_described(resource_type, item, targets, d),
        last_record_with_key(targets, resource_type, spec_normalize_resource_stable_key(resource_type, item.key_view()))
            == Some(t),
    ensures
        d.action == PlanAction::Unchanged <==> (views(t.path@) == views(item.path@) && t.sort == item.sort
            && t.status@ == item.status@ && opt_view(t.remark) == opt_view(item.remark)),
        d.action == PlanAction::Update <==> !(views(t.path@) == views(item.path@) && t.sort == item.sort
            && t.status@ == item.status@ && opt_view(t.remark) == opt_view(item.remark)),
{
}

/// A post found in the target is unchanged exactly when the target's post has the same code,
/// name, sort, status and remark; any of them differing makes it an update.
pub proof fn law_post_line_unchanged_only_when_equal(
    resource_type: Seq<char>,
    item: PortablePost,
    targets: Seq<PortablePost>,
    t: PortablePost,
    d: PlanItemDescription,
)
    requires
        record_described(resource_type, item, targets, d),
        last_record_with_key(targets, resource_type, spec_normalize_resource_stable_key(resource_type, item.key_view()))
            == Some(t),
    ensures
        d.action == PlanAction::Unchanged <==> (t.code@ == item.code@ && t.name@ == item.name@ && t.sort
            == item.sort && t.status@ == item.status@ && opt_view(t.remark) == opt_view(item.remark)),
        d.action == PlanAction::Update <==> !(t.code@ == item.code@ && t.name@ == item.name@ && t.sort
            == item.sort && t.status@ == item.status@ && opt_view(t.remark) == opt_view(item.remark)),
{
}

/// A dictionary type found in the target is unchanged exactly when the target's type has the
/// same code, name, status and remark; any of them differing makes it an update.
pub proof fn law_dict_type_line_unchanged_only_when_equal(
    resource_type: Seq<char>,
    item: PortableDictType,
    targets: Seq<PortableDictType>,
    t: PortableDictType,
    d: PlanItemDescription,
)
    requires
        record_described(resource_type, item, targets, d),
        last_record_with_key(targets, resource_type, spec_normalize_resource_stable_key(resource_type, item.key_view()))
            == Some(t),
    ensures
        d.action == PlanAction::Unchanged <==> (t.code@ == item.code@ && t.name@ == item.name@ && t.status@
            == item.status@ && opt_view(t.remark) == opt_view(item.remark)),
        d.action == PlanAction::Update <==> !(t.code@ == item.code@ && t.name@ == item.name@ && t.status@
            == item.status@ && opt_view(t.remark) == opt_view(item.remark)),
{
}

/// A dictionary entry found in the target is unchanged exactly when the target's entry has
/// the same type, value, label, sort, status, style class and remark; any of them differing
/// makes it an update.
pub proof fn law_dict_data_line_unchanged_only_when_equal(
    resource_type: Seq<char>,
    item: PortableDictData,
    targets: Seq<PortableDictData>,
    t: PortableDictData,
    d: PlanItemDescription,
)
    requires
        record_described(resource_type, item, targets, d),
        last_record_with_key(targets, resource_type, spec_normalize_resource_stable_key(resource_type, item.key_view()))
            == Some(t),
    ensures
        d.action == PlanAction::Unchanged <==> (t.type_code@ == item.type_code@ && t.value@ == item.value@
            && t.label@ == item.label@ && t.sort == item.sort && t.status@ == item.status@ && opt_view(t.css_class)
            == opt_view(item.css_class) && opt_view(t.remark) == opt_view(item.remark)),
        d.action == PlanAction::Update <==> !(t.type_code@ == item.type_code@ && t.value@ == item.value@
            && t.label@ == item.label@ && t.sort == item.sort && t.status@ == item.status@ && opt_view(t.css_class)
            == opt_view(item.css_class) && opt_view(t.remark) == opt_view(item.remark)),
{
}

/// A configuration entry found in the target is unchanged exactly when the target's entry
/// has the same key, name, value and remark; any of them differing makes it an update.
pub proof fn law_config_line_unchanged_only_when_equal(
    resource_type: Seq<char>,
    item: PortableConfig,
    targets: Seq<PortableConfig>,
    t: PortableConfig,
    d: PlanItemDescription,
)
    requires
        record_described(resource_type, item, targets, d),
        last_record_with_key(targets, resource_type, spec_normalize_resource_stable_key(resource_type, item.key_view()))
            == Some(t),
    ensures
        d.action == PlanAction::Unchanged <==> (t.key@ == item.key@ && t.name@ == item.name@ && t.value@
            == item.value@ && opt_view(t.remark) == opt_view(item.remark)),
        d.action == PlanAction::Update <==> !(t.key@ == item.key@ && t.name@ == item.name@ && t.value@
            == item.value@ && opt_view(t.remark) == opt_view(item.remark)),
{
}

/// A role found in the target is unchanged exactly when the target's role has the same code,
/// name, data scope, status, sort, remark, permission codes and custom department paths; any
/// of them differing makes it an update.
pub proof fn law_role_line_unchanged_only_when_equal(
    resource_type: Seq<char>,
    item: PortableRole,
    targets: Seq<PortableRole>,
    t: PortableRole,
    d: PlanItemDescription,
)
    requires
        record_described(resource_type, item, targets, d),
        last_record_with_key(targets, resource_type, spec_normalize_resource_stable_key(resource_type, item.key_view()))
            == Some(t),
    ensures
        d.action == PlanAction::Unchanged <==> (t.code@ == item.code@ && t.name@ == item.name@ && t.data_scope@
            == item.data_scope@ && t.status@ == item.status@ && t.sort == item.sort && opt_view(t.remark)
            == opt_view(item.remark) && views(t.permission_codes@) == views(item.permission_codes@) && paths_view(
            t.custom_department_paths@,
        ) == paths_view(item.custom_department_paths@)),
        d.action == PlanAction::Update <==> !(t.code@ == item.code@ && t.name@ == item.name@ && t.data_scope@
            == item.data_scope@ && t.status@ == item.status@ && t.sort == item.sort && opt_view(t.remark)
            == opt_view(item.remark) && views(t.permission_codes@) == views(item.permission_codes@) && paths_view(
            t.custom_department_paths@,
        ) == paths_view(item.custom_department_paths@)),
{
}

/// A permission line is blocked when the permission's code has a wildcard segment or is
/// reserved to the platform, and when an API permission is not registered here; otherwise,
/// against a target permission with its code, it is unchanged exactly when code, name,
/// parent, type, icon, sort and status all agree, and an update when any differs.
pub proof fn law_permission_line_blocked_or_compared_field_by_field(
    item: PortablePermission,
    targets: Seq<PortablePermission>,
    registered: StrMap<String>,
    d: PlanItemDescription,
)
    requires
        permission_described(item, targets, registered, d),
    ensures
        spec_permission_contains_wildcard(item.code@) || spec_is_platform_only_permission(item.code@) ==> d.action
            == PlanAction::Blocked,
        item.permission_type@ == "api"@ && registered.get_spec(lower_seq(item.code@)) is None ==> d.action
            == PlanAction::Blocked,
        d.action != PlanAction::Blocked ==> match last_permission_with_key(targets, lower_seq(item.code@)) {
            None => d.action == PlanAction::Create,
            Some(t) => (d.action == PlanAction::Unchanged <==> (t.code@ == item.code@ && t.name@ == item.name@
                && opt_view(t.parent_code) == opt_view(item.parent_code) && t.permission_type@
                == item.permission_type@ && opt_view(t.icon) == opt_view(item.icon) && t.sort == item.sort
                && t.status@ == item.status@)) && (d.action == PlanAction::Update <==> !(t.code@ == item.code@
                && t.name@ == item.name@ && opt_view(t.parent_code) == opt_view(item.parent_code)
                && t.permission_type@ == item.permission_type@ && opt_view(t.icon) == opt_view(item.icon) && t.sort
                == item.sort && t.status@ == item.status@)),
        },
{
}

/// A directory or page line is blocked when the menu carries no route or its route is not
/// registered here; an action line is never blocked; an unblocked line, against a target menu
/// with its key, is unchanged exactly when key, parent, name, type, permission, route, icon,
/// sort, visibility, status and remark all agree, and an update when any differs.
pub proof fn law_menu_line_blocked_or_compared_field_by_field(
    item: PortableMenu,
    targets: Seq<PortableMenu>,
    routes: StrMap<(String, String)>,
    d: PlanItemDescription,
)
    requires
        menu_described(item, targets, routes, d),
    ensures
        (item.menu_type@ == "M"@ || item.menu_type@ == "C"@) && (item.route_key is None || (item.route_key matches Some(
            rk,
        ) && routes.get_spec(lower_seq(rk@)) is None)) ==> d.action == PlanAction::Blocked,
        item.menu_type@ == "F"@ ==> d.action != PlanAction::Blocked,
        d.action != PlanAction::Blocked ==> match first_menu_with_key(targets, lower_seq(item.stable_key@)) {
            None => d.action == PlanAction::Create,
            Some(t) => (d.action == PlanAction::Unchanged <==> (t.stable_key@ == item.stable_key@ && opt_view(
                t.parent_stable_key,
            ) == opt_view(item.parent_stable_key) && t.name@ == item.name@ && t.menu_type@ == item.menu_type@
                && opt_view(t.permission_code) == opt_view(item.permission_code) && opt_view(t.route_key)
                == opt_view(item.route_key) && opt_view(t.icon) == opt_view(item.icon) && t.sort == item.sort
                && t.visible == item.visible && t.status@ == item.status@ && opt_view(t.remark) == opt_view(
                item.remark,
            ))) && (d.action == PlanAction::Update <==> !(t.stable_key@ == item.stable_key@ && opt_view(
                t.parent_stable_key,
            ) == opt_view(item.parent_stable_key) && t.name@ == item.name@ && t.menu_type@ == item.menu_type@
                && opt_view(t.permission_code) == opt_view(item.permission_code) && opt_view(t.route_key)
                == opt_view(item.route_key) && opt_view(t.icon) == opt_view(item.icon) && t.sort == item.sort
                && t.visible == item.visible && t.status@ == item.status@ && opt_view(t.remark) == opt_view(
                item.remark,
            ))),
        },
{
    reveal_strlit("M");
    reveal_strlit("C");
    reveal_strlit("F");
    if item.menu_type@ == "F"@ {
        assert(item.menu_type@[0] == 'F');
        assert("M"@[0] == 'M' && "C"@[0] == 'C');
    }
}

} // verus!

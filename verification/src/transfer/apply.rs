//! What applying a plan writes, and what a rollback must find before it undoes an apply: the
//! keys the plan changes, the ancestry of the departments it creates, the identity of an
//! upserted row, and the references that block a rollback.
use vstd::prelude::*;

use crate::error::{AppError, AppResult};
use crate::idset::IdSet;
use crate::strset::StrSet;
use crate::text::{byte_len, decimal, owned, push_decimal, push_signed_decimal, push_str, signed_decimal, str_eq, utf8_len};
use crate::strset::StrMap;
use crate::text::lower_seq;
use crate::transfer::keys::{
    is_platform_only_permission, join_path, normalize_resource_stable_key, normalize_stable_key, permission_contains_wildcard,
    spec_is_platform_only_permission, spec_join_path, spec_normalize_resource_stable_key, spec_permission_contains_wildcard,
    strings_view,
};
use crate::transfer::portable::{PortableDepartment, PortableRole};
use crate::transfer::assemble::{find_last, lookup};
use crate::transfer::plan::{ACTION_CREATE, ACTION_UPDATE, PlanAction, PlanItemDescription, TransferItem};

verus! {

/// The normalized keys of the items of `resource_type` that the plan creates or updates.
pub open spec fn changed_key_set(items: Seq<TransferItem>, resource_type: Seq<char>) -> Set<Seq<char>> {
    Set::new(|k: Seq<char>| exists|i: int| 0 <= i < items.len() && (#[trigger] items[i].action@ == ACTION_CREATE@
        || items[i].action@ == ACTION_UPDATE@) && items[i].resource_type@ == resource_type
        && spec_normalize_resource_stable_key(items[i].resource_type@, items[i].stable_key@) == k)
}

/// The keys the plan writes for `resource_type` are those of its items of that type that it
/// creates or updates: an item to create or update puts its key in, and a key that only
/// unchanged or blocked items of the type, or items of other types, carry stays out.
pub proof fn law_changed_keys_are_created_or_updated(items: Seq<TransferItem>, resource_type: Seq<char>, k: Seq<char>)
    ensures
        forall|i: int|
            0 <= i < items.len() && (#[trigger] items[i]).resource_type@ == resource_type && (items[i].action@
                == "create"@ || items[i].action@ == "update"@) ==> changed_key_set(items, resource_type).contains(
                spec_normalize_resource_stable_key(resource_type, items[i].stable_key@),
            ),
        (forall|i: int|
            0 <= i < items.len() && (#[trigger] items[i]).resource_type@ == resource_type
                && spec_normalize_resource_stable_key(resource_type, items[i].stable_key@) == k ==> items[i].action@
                != "create"@ && items[i].action@ != "update"@) ==> !changed_key_set(items, resource_type).contains(k),
{
    assert forall|i: int|
        0 <= i < items.len() && (#[trigger] items[i]).resource_type@ == resource_type && (items[i].action@
            == "create"@ || items[i].action@ == "update"@) implies changed_key_set(items, resource_type).contains(
        spec_normalize_resource_stable_key(resource_type, items[i].stable_key@),
    ) by {
        assert(items[i].action@ == ACTION_CREATE@ || items[i].action@ == ACTION_UPDATE@);
    }
}

/// The keys of `resource_type` that applying the plan writes (created or updated items).
pub fn changed_keys(items: &[TransferItem], resource_type: &str) -> (r: StrSet)
    ensures
        r.wf(),
        r.set() == changed_key_set(items@, resource_type@),
{
    let mut keys = StrSet::new();
    let mut i: usize = 0;
    while i < items.len()
        invariant
            i <= items.len(),
            keys.wf(),
            keys.set() == changed_key_set(items@.take(i as int), resource_type@),
        decreases items.len() - i,
    {
        let item = &items[i];
        let ghost before = keys.set();
        if (str_eq(item.action.as_str(), ACTION_CREATE) || str_eq(item.action.as_str(), ACTION_UPDATE)) && str_eq(
            item.resource_type.as_str(),
            resource_type,
        ) {
            keys.insert(normalize_resource_stable_key(item.resource_type.as_str(), item.stable_key.as_str()));
        }
        proof {
            let t1 = items@.take(i + 1 as int);
            let t0 = items@.take(i as int);
            assert forall|k: Seq<char>| keys.set().contains(k) <==> changed_key_set(t1, resource_type@).contains(k) by {
                if changed_key_set(t1, resource_type@).contains(k) {
                    let j = choose|j: int| 0 <= j < t1.len() && (#[trigger] t1[j].action@ == ACTION_CREATE@
                        || t1[j].action@ == ACTION_UPDATE@) && t1[j].resource_type@ == resource_type@
                        && spec_normalize_resource_stable_key(t1[j].resource_type@, t1[j].stable_key@) == k;
                    if j < i {
                        assert(t0[j] == t1[j]);
                        assert(changed_key_set(t0, resource_type@).contains(k));
                    }
                }
                if before.contains(k) {
                    let j = choose|j: int| 0 <= j < t0.len() && (#[trigger] t0[j].action@ == ACTION_CREATE@
                        || t0[j].action@ == ACTION_UPDATE@) && t0[j].resource_type@ == resource_type@
                        && spec_normalize_resource_stable_key(t0[j].resource_type@, t0[j].stable_key@) == k;
                    assert(t1[j] == t0[j]);
                }
                if keys.set().contains(k) && !before.contains(k) {
                    assert(t1[i as int] == items@[i as int]);
                }
            }
            assert(keys.set() =~= changed_key_set(t1, resource_type@));
        }
        i = i + 1;
    }
    assert(items@.take(items.len() as int) =~= items@);
    keys
}

pub open spec fn spec_department_ancestors(parent_id: Option<i64>, parent_ancestors: Option<Seq<char>>) -> Seq<char> {
    match parent_id {
        None => "0"@,
        Some(p) => match parent_ancestors {
            Some(a) => a + ","@ + signed_decimal(p as int),
            None => "0,"@ + signed_decimal(p as int),
        },
    }
}

/// The ancestry of a department written by an apply: `0` for a root, else its parent's
/// ancestry followed by the parent id (`0,{parent}` when the parent's ancestry is unknown).
pub fn department_ancestors(parent_id: Option<i64>, parent_ancestors: Option<&str>) -> (r: String)
    ensures
        r@ == spec_department_ancestors(parent_id, match parent_ancestors {
            Some(a) => Some(a@),
            None => None,
        }),
{
    match parent_id {
        None => owned("0"),
        Some(p) => {
            let mut r = match parent_ancestors {
                Some(a) => {
                    let mut r = owned(a);
                    push_str(&mut r, ",");
                    r
                },
                None => owned("0,"),
            };
            push_signed_decimal(&mut r, p);
            r
        },
    }
}

/// The stable key of a dictionary entry: `{byte length of type}:{type}:{value}`.
pub open spec fn spec_dict_data_key(type_code: Seq<char>, value: Seq<char>) -> Seq<char> {
    decimal(utf8_len(type_code)) + ":"@ + type_code + ":"@ + value
}

pub fn dict_data_key(type_code: &str, value: &str) -> (r: String)
    ensures
        r@ == spec_dict_data_key(type_code@, value@),
{
    let mut r = String::new();
    push_decimal(&mut r, byte_len(type_code) as u64);
    push_str(&mut r, ":");
    push_str(&mut r, type_code);
    push_str(&mut r, ":");
    push_str(&mut r, value);
    r
}

/// The identity an upserted row is written under: the existing row's id and creation time
/// (an update), or a new id created now (an insert). The flag tells which.
pub fn upsert_identity(existing: Option<(i64, i64)>, new_id: i64, now: i64) -> (r: (i64, i64, bool))
    ensures
        r == match existing {
            Some((id, created_at)) => (id, created_at, true),
            None => (new_id, now, false),
        },
{
    match existing {
        Some((id, created_at)) => (id, created_at, true),
        None => (new_id, now, false),
    }
}

/// The ids of the rows (id, key) whose key, normalized for `resource_type`, the plan created.
pub fn ids_with_created_keys(rows: &[(i64, String)], resource_type: &str, created: &StrSet) -> (r: Vec<i64>)
    requires
        created.wf(),
    ensures
        r@ == rows@.filter(|x: (i64, String)| created.set().contains(spec_normalize_resource_stable_key(resource_type@, x.1@))).map_values(
            |x: (i64, String)| x.0,
        ),
{
    let ghost f = |x: (i64, String)| created.set().contains(spec_normalize_resource_stable_key(resource_type@, x.1@));
    let mut r: Vec<i64> = Vec::new();
    let mut i: usize = 0;
    assert(rows@.take(0).filter(f) =~= Seq::<(i64, String)>::empty()) by {
        reveal(Seq::filter);
    }
    while i < rows.len()
        invariant
            i <= rows.len(),
            created.wf(),
            f == (|x: (i64, String)| created.set().contains(spec_normalize_resource_stable_key(resource_type@, x.1@))),
            r@ == rows@.take(i as int).filter(f).map_values(|x: (i64, String)| x.0),
        decreases rows.len() - i,
    {
        proof {
            crate::transfer::portable::lemma_filter_step(rows@, i as int, f);
        }
        let key = normalize_resource_stable_key(resource_type, rows[i].1.as_str());
        if created.contains(key.as_str()) {
            r.push(rows[i].0);
            proof {
                assert(rows@.take(i + 1).filter(f).map_values(|x: (i64, String)| x.0) =~= rows@.take(i as int).filter(
                    f,
                ).map_values(|x: (i64, String)| x.0).push(rows@[i as int].0));
            }
        }
        i = i + 1;
    }
    assert(rows@.take(rows.len() as int) =~= rows@);
    r
}

/// A rollback only removes what the apply created while nothing else depends on it: no user
/// holds a created role (`assigned_users` counts them), no live user belongs to a created
/// department (`department_users`), and only migrated roles (`migrated_role_ids`) scope their
/// data to a created department (`referencing_role_ids` are the roles that do).
pub fn check_rollback_references(
    assigned_users: u64,
    department_users: u64,
    referencing_role_ids: &[i64],
    migrated_role_ids: &IdSet,
) -> (r: AppResult<()>)
    requires
        migrated_role_ids.wf(),
    ensures
        r is Ok <==> assigned_users == 0 && department_users == 0 && forall|i: int| 0 <= i < referencing_role_ids@.len()
            ==> migrated_role_ids.set().contains(#[trigger] referencing_role_ids@[i]),
        r is Err ==> r->Err_0 is Conflict,
{
    if assigned_users > 0 {
        return Err(AppError::Conflict(owned("应用创建的角色已经分配给用户，不能自动回滚")));
    }
    if department_users > 0 {
        return Err(AppError::Conflict(owned("应用创建的部门已经被用户引用，不能自动回滚")));
    }
    let mut i: usize = 0;
    while i < referencing_role_ids.len()
        invariant
            i <= referencing_role_ids.len(),
            migrated_role_ids.wf(),
            forall|k: int| 0 <= k < i ==> migrated_role_ids.set().contains(#[trigger] referencing_role_ids@[k]),
        decreases referencing_role_ids.len() - i,
    {
        if !migrated_role_ids.contains(referencing_role_ids[i]) {
            return Err(AppError::Conflict(owned("应用创建的部门已经被迁移范围外的角色数据范围引用，不能自动回滚")));
        }
        i = i + 1;
    }
    Ok(())
}


/// A snapshot is restored only in full: when comparing it with the current configuration
/// blocks no item (the target's permission or route catalog has not moved away from it).
pub fn check_snapshot_restorable(descriptions: &[PlanItemDescription]) -> (r: AppResult<()>)
    ensures
        r is Ok <==> forall|i: int| 0 <= i < descriptions@.len() ==> (#[trigger] descriptions@[i]).action != PlanAction::Blocked,
        r is Err ==> r->Err_0 is Conflict,
{
    let mut i: usize = 0;
    while i < descriptions.len()
        invariant
            i <= descriptions.len(),
            forall|k: int| 0 <= k < i ==> (#[trigger] descriptions@[k]).action != PlanAction::Blocked,
        decreases descriptions.len() - i,
    {
        match descriptions[i].action {
            PlanAction::Blocked => {
                return Err(AppError::Conflict(owned("目标权限或路由目录已经变化，配置快照不能完整回滚")));
            },
            _ => {},
        }
        i = i + 1;
    }
    Ok(())
}

/// A permission the apply created is removed by a rollback only when no role and no live menu
/// refers to it any more.
pub fn check_permission_unreferenced(role_references: u64, menu_references: u64) -> (r: AppResult<()>)
    ensures
        r is Ok <==> role_references == 0 && menu_references == 0,
        r is Err ==> r->Err_0 is Conflict,
{
    if role_references > 0 || menu_references > 0 {
        return Err(AppError::Conflict(owned("应用创建的权限仍被引用，不能自动回滚")));
    }
    Ok(())
}


/// A role to save with its relations: its id (`exists` when it updates a row), and the ids of
/// its permissions and custom departments, in the package's order.
pub struct RoleWrite {
    pub id: i64,
    pub exists: bool,
    pub permission_ids: Vec<i64>,
    pub department_ids: Vec<i64>,
}

/// A package role or one of its permission codes is a wildcard, or a permission is reserved
/// to the platform.
pub open spec fn role_too_powerful(role: PortableRole) -> bool {
    spec_permission_contains_wildcard(role.code@) || exists|i: int| 0 <= i < role.permission_codes@.len() && (
    spec_permission_contains_wildcard(#[trigger] role.permission_codes@[i]@) || spec_is_platform_only_permission(
        role.permission_codes@[i]@,
    ))
}

pub open spec fn codes_resolve(role: PortableRole, permission_ids: StrMap<i64>) -> bool {
    forall|i: int| 0 <= i < role.permission_codes@.len() ==> permission_ids.get_spec(lower_seq((#[trigger] role.permission_codes@[i])@)) is Some
}

pub open spec fn paths_resolve(role: PortableRole, department_ids: StrMap<i64>) -> bool {
    forall|i: int| 0 <= i < role.custom_department_paths@.len() ==> department_ids.get_spec(
        spec_join_path(strings_view((#[trigger] role.custom_department_paths@[i])@)),
    ) is Some
}

/// Plans the write of a changed package role: wildcard roles and permissions and platform
/// permissions are refused; the tenant's super role is never overwritten; every permission
/// code must name a target permission (`permission_ids`, by normalized code) and every custom
/// department path a target department (`department_ids`, by path key). `old` is the existing
/// role with the same code (its id and whether it is the super role).
pub fn plan_role_upsert(
    role: &PortableRole,
    old: Option<(i64, bool)>,
    permission_ids: &StrMap<i64>,
    department_ids: &StrMap<i64>,
    new_id: i64,
) -> (r: AppResult<RoleWrite>)
    requires
        permission_ids.wf(),
        department_ids.wf(),
    ensures
        role_too_powerful(*role) ==> r is Err && r->Err_0 is Validation,
        !role_too_powerful(*role) && (old matches Some(o) && o.1) ==> r is Err && r->Err_0 is Conflict,
        !role_too_powerful(*role) && !(old matches Some(o) && o.1) ==> {
            &&& r is Ok <==> codes_resolve(*role, *permission_ids) && paths_resolve(*role, *department_ids)
            &&& r is Err ==> r->Err_0 is Conflict
        },
        r matches Ok(w) ==> {
            &&& w.id == (match old { Some(o) => o.0, None => new_id })
            &&& w.exists == old is Some
            &&& w.permission_ids@ == role.permission_codes@.map_values(|c: String| permission_ids.get_spec(lower_seq(c@)).unwrap())
            &&& w.department_ids@ == role.custom_department_paths@.map_values(
                |p: Vec<String>| department_ids.get_spec(spec_join_path(strings_view(p@))).unwrap(),
            )
        },
{
    let codes = &role.permission_codes;
    let mut too_powerful = permission_contains_wildcard(role.code.as_str());
    let mut i: usize = 0;
    while i < codes.len()
        invariant
            i <= codes.len(),
            too_powerful == (spec_permission_contains_wildcard(role.code@) || exists|k: int| 0 <= k < i && (
            spec_permission_contains_wildcard(#[trigger] codes@[k]@) || spec_is_platform_only_permission(codes@[k]@))),
        decreases codes.len() - i,
    {
        if permission_contains_wildcard(codes[i].as_str()) || is_platform_only_permission(codes[i].as_str()) {
            too_powerful = true;
        }
        proof {
            if spec_permission_contains_wildcard(codes@[i as int]@) || spec_is_platform_only_permission(codes@[i as int]@) {
                assert(0 <= i < i + 1);
            }
        }
        i = i + 1;
    }
    if too_powerful {
        return Err(AppError::Validation(owned("超级角色或通配权限不能通过配置包迁移")));
    }
    let (id, exists) = match old {
        Some((old_id, is_super)) => {
            if is_super {
                return Err(AppError::Conflict(owned("超级角色不能被配置包覆盖")));
            }
            (old_id, true)
        },
        None => (new_id, false),
    };
    let mut perm_ids: Vec<i64> = Vec::new();
    let mut i: usize = 0;
    while i < codes.len()
        invariant
            i <= codes.len(),
            codes@ == role.permission_codes@,
            !role_too_powerful(*role),
            !(old matches Some(o) && o.1),
            permission_ids.wf(),
            forall|k: int| 0 <= k < i ==> permission_ids.get_spec(lower_seq((#[trigger] codes@[k])@)) is Some,
            perm_ids@ == codes@.take(i as int).map_values(|c: String| permission_ids.get_spec(lower_seq(c@)).unwrap()),
        decreases codes.len() - i,
    {
        let key = normalize_stable_key(codes[i].as_str());
        match permission_ids.get(key.as_str()) {
            Some(pid) => {
                perm_ids.push(*pid);
                proof {
                    assert(codes@.take(i + 1).map_values(|c: String| permission_ids.get_spec(lower_seq(c@)).unwrap()) =~= codes@.take(
                        i as int,
                    ).map_values(|c: String| permission_ids.get_spec(lower_seq(c@)).unwrap()).push(*pid));
                }
            },
            None => {
                let mut msg = owned("角色引用的权限 ");
                push_str(&mut msg, codes[i].as_str());
                push_str(&mut msg, " 不存在");
                return Err(AppError::Conflict(msg));
            },
        }
        i = i + 1;
    }
    assert(codes@.take(codes.len() as int) =~= codes@);
    assert(codes_resolve(*role, *permission_ids));
    let paths = &role.custom_department_paths;
    let mut dept_ids: Vec<i64> = Vec::new();
    let mut i: usize = 0;
    while i < paths.len()
        invariant
            i <= paths.len(),
            paths@ == role.custom_department_paths@,
            !role_too_powerful(*role),
            !(old matches Some(o) && o.1),
            codes_resolve(*role, *permission_ids),
            department_ids.wf(),
            forall|k: int| 0 <= k < i ==> department_ids.get_spec(spec_join_path(strings_view((#[trigger] paths@[k])@))) is Some,
            dept_ids@ == paths@.take(i as int).map_values(
                |p: Vec<String>| department_ids.get_spec(spec_join_path(strings_view(p@))).unwrap(),
            ),
        decreases paths.len() - i,
    {
        let key = join_path(paths[i].as_slice());
        match department_ids.get(key.as_str()) {
            Some(did) => {
                dept_ids.push(*did);
                proof {
                    assert(paths@.take(i + 1).map_values(|p: Vec<String>| department_ids.get_spec(spec_join_path(strings_view(p@))).unwrap())
                        =~= paths@.take(i as int).map_values(
                        |p: Vec<String>| department_ids.get_spec(spec_join_path(strings_view(p@))).unwrap(),
                    ).push(*did));
                }
            },
            None => {
                let mut msg = owned("角色引用的部门路径 ");
                push_str(&mut msg, key.as_str());
                push_str(&mut msg, " 不存在");
                return Err(AppError::Conflict(msg));
            },
        }
        i = i + 1;
    }
    assert(paths@.take(paths.len() as int) =~= paths@);
    Ok(RoleWrite { id, exists, permission_ids: perm_ids, department_ids: dept_ids })
}


/// A department to save: the package item at `index`, under `id`, named by the last segment of
/// its path, under its parent, with its ancestry; `exists` when it updates a row.
pub struct DepartmentWrite {
    pub index: usize,
    pub id: i64,
    pub name: String,
    pub parent_id: Option<i64>,
    pub ancestors: String,
    pub exists: bool,
}

/// The key of a department path.
pub open spec fn dept_key(d: PortableDepartment) -> Seq<char> {
    spec_join_path(strings_view(d.path@))
}

/// The key of the parent path (all but the last segment), if the path has a parent.
pub open spec fn parent_dept_key(d: PortableDepartment) -> Option<Seq<char>> {
    if d.path@.len() <= 1 {
        None
    } else {
        Some(spec_join_path(strings_view(d.path@.drop_last())))
    }
}

/// The id of a department key once `ws` were written over the existing departments.
pub open spec fn dept_id_known(existing: StrMap<i64>, items: Seq<PortableDepartment>, ws: Seq<DepartmentWrite>, key: Seq<char>) -> Option<i64>
    decreases ws.len(),
{
    if ws.len() == 0 {
        existing.get_spec(key)
    } else if dept_key(items[ws.last().index as int]) == key {
        Some(ws.last().id)
    } else {
        dept_id_known(existing, items, ws.drop_last(), key)
    }
}

/// The ancestry a department id has once `ws` were written over the existing ancestries.
pub open spec fn ancestors_known(existing: Seq<(i64, String)>, ws: Seq<DepartmentWrite>, id: i64) -> Option<Seq<char>>
    decreases ws.len(),
{
    if ws.len() == 0 {
        match lookup(existing, id) {
            Some(a) => Some(a@),
            None => None,
        }
    } else if ws.last().id == id {
        Some(ws.last().ancestors@)
    } else {
        ancestors_known(existing, ws.drop_last(), id)
    }
}

pub open spec fn dept_write_ok(
    existing_ids: StrMap<i64>,
    existing_ancestors: Seq<(i64, String)>,
    items: Seq<PortableDepartment>,
    changed: Set<Seq<char>>,
    new_ids: Seq<i64>,
    ws: Seq<DepartmentWrite>,
    j: int,
) -> bool {
    let w = ws[j];
    let before = ws.take(j);
    let item = items[w.index as int];
    &&& w.index < items.len()
    &&& changed.contains(dept_key(item))
    &&& w.parent_id == (match parent_dept_key(item) {
        Some(pk) => dept_id_known(existing_ids, items, before, pk),
        None => None,
    })
    &&& (parent_dept_key(item) is Some ==> w.parent_id is Some)
    &&& w.id == (match dept_id_known(existing_ids, items, before, dept_key(item)) {
        Some(id) => id,
        None => new_ids[w.index as int],
    })
    &&& w.exists == dept_id_known(existing_ids, items, before, dept_key(item)) is Some
    &&& w.ancestors@ == spec_department_ancestors(w.parent_id, match w.parent_id {
        Some(p) => ancestors_known(existing_ancestors, before, p),
        None => None,
    })
    &&& w.name@ == (if item.path@.len() > 0 { item.path@.last()@ } else { Seq::empty() })
}

/// Department key `key` is known when item `i` is planned: it is an existing department, or a
/// changed item before `i` has it.
pub open spec fn key_known_before(
    existing: StrMap<i64>,
    items: Seq<PortableDepartment>,
    changed: Set<Seq<char>>,
    i: int,
    key: Seq<char>,
) -> bool {
    existing.get_spec(key) is Some || exists|j: int|
        0 <= j < i && changed.contains(#[trigger] dept_key(items[j])) && dept_key(items[j]) == key
}

/// The parent of item `i`, if it has one, is known when the item is planned.
pub open spec fn parent_known(existing: StrMap<i64>, items: Seq<PortableDepartment>, changed: Set<Seq<char>>, i: int) -> bool {
    match parent_dept_key(items[i]) {
        Some(pk) => key_known_before(existing, items, changed, i, pk),
        None => true,
    }
}

/// Every changed department's parent path is an existing department or a changed department
/// earlier in the package.
pub open spec fn department_parents_resolve(existing: StrMap<i64>, items: Seq<PortableDepartment>, changed: Set<Seq<char>>) -> bool {
    forall|i: int| 0 <= i < items.len() && changed.contains(#[trigger] dept_key(items[i])) ==> parent_known(existing, items, changed, i)
}

proof fn lemma_known_step(existing: StrMap<i64>, items: Seq<PortableDepartment>, changed: Set<Seq<char>>, i: int, y: Seq<char>)
    requires
        0 <= i < items.len(),
    ensures
        key_known_before(existing, items, changed, i + 1, y) <==> (key_known_before(existing, items, changed, i, y) || (
        changed.contains(dept_key(items[i])) && dept_key(items[i]) == y)),
{
    if key_known_before(existing, items, changed, i + 1, y) && existing.get_spec(y) is None {
        let j = choose|j: int| 0 <= j < i + 1 && changed.contains(#[trigger] dept_key(items[j])) && dept_key(items[j]) == y;
        if j < i {
            assert(key_known_before(existing, items, changed, i, y));
        }
    }
    if key_known_before(existing, items, changed, i, y) && existing.get_spec(y) is None {
        let j = choose|j: int| 0 <= j < i && changed.contains(#[trigger] dept_key(items[j])) && dept_key(items[j]) == y;
        assert(0 <= j < i + 1);
    }
    if changed.contains(dept_key(items[i])) && dept_key(items[i]) == y {
        assert(0 <= i < i + 1 && changed.contains(dept_key(items[i])));
    }
}

fn copy_path_prefix(path: &Vec<String>, n: usize) -> (r: Vec<String>)
    requires
        n <= path@.len(),
    ensures
        strings_view(r@) == strings_view(path@.take(n as int)),
{
    let mut r: Vec<String> = Vec::new();
    let mut i: usize = 0;
    while i < n
        invariant
            i <= n,
            n <= path@.len(),
            strings_view(r@) == strings_view(path@.take(i as int)),
        decreases n - i,
    {
        r.push(owned(path[i].as_str()));
        proof {
            assert(strings_view(path@.take(i + 1)) =~= strings_view(path@.take(i as int)).push(path@[i as int]@));
        }
        i = i + 1;
    }
    r
}

/// Plans the departments an apply writes, in the package's order: each changed department
/// (its path key in `changed`) under its parent (by the path without its last segment), which
/// must exist or have been written before it, with its ancestry derived from the parent's;
/// `existing_ids` are the tenant's departments by path key and `existing_ancestors` their
/// ancestries by id.
pub fn plan_department_upserts(
    items: &[PortableDepartment],
    changed: &StrSet,
    existing_ids: StrMap<i64>,
    existing_ancestors: &[(i64, String)],
    new_ids: &[i64],
) -> (r: AppResult<Vec<DepartmentWrite>>)
    requires
        existing_ids.wf(),
        changed.wf(),
        new_ids@.len() == items@.len(),
    ensures
        r is Ok <==> department_parents_resolve(existing_ids, items@, changed.set()),
        r is Err ==> r->Err_0 is Conflict,
        r matches Ok(ws) ==> forall|j: int| 0 <= j < ws@.len() ==> dept_write_ok(existing_ids, existing_ancestors@, items@, changed.set(), new_ids@, ws@, j),
        r matches Ok(ws) ==> ws@.map_values(|w: DepartmentWrite| w.index as int) == Seq::new(items@.len(), |i: int| i).filter(
            |i: int| changed.set().contains(dept_key(items@[i])),
        ),
{
    let ghost ex = existing_ids;
    let ghost f = |i: int| changed.set().contains(dept_key(items@[i]));
    let ghost all = Seq::new(items@.len(), |i: int| i);
    let mut ids = existing_ids;
    let mut ancestors: Vec<(i64, String)> = Vec::new();
    let mut k: usize = 0;
    while k < existing_ancestors.len()
        invariant
            k <= existing_ancestors.len(),
            ancestors@.len() == k,
            forall|m: int| 0 <= m < k ==> (#[trigger] ancestors@[m]).0 == existing_ancestors@[m].0 && ancestors@[m].1@ == existing_ancestors@[m].1@,
        decreases existing_ancestors.len() - k,
    {
        ancestors.push((existing_ancestors[k].0, owned(existing_ancestors[k].1.as_str())));
        k = k + 1;
    }
    proof {
        assert forall|id: i64| #[trigger] ancestors_lookup(ancestors@, id) == ancestors_lookup(existing_ancestors@, id) by {
            lemma_lookup_views(ancestors@, existing_ancestors@, id);
        }
    }
    let mut writes: Vec<DepartmentWrite> = Vec::new();
    let mut i: usize = 0;
    assert(all.take(0).filter(f) =~= Seq::<int>::empty()) by {
        reveal(Seq::filter);
    }
    while i < items.len()
        invariant
            i <= items.len(),
            changed.wf(),
            ids.wf(),
            new_ids@.len() == items@.len(),
            ex == existing_ids,
            f == (|i: int| changed.set().contains(dept_key(items@[i]))),
            all == Seq::new(items@.len(), |i: int| i),
            forall|y: Seq<char>| #[trigger] ids.get_spec(y) == dept_id_known(ex, items@, writes@, y),
            forall|id: i64| #[trigger] ancestors_lookup(ancestors@, id) == ancestors_known(existing_ancestors@, writes@, id),
            forall|j: int| 0 <= j < writes@.len() ==> dept_write_ok(ex, existing_ancestors@, items@, changed.set(), new_ids@, writes@, j),
            writes@.map_values(|w: DepartmentWrite| w.index as int) == all.take(i as int).filter(f),
            forall|y: Seq<char>| (#[trigger] ids.get_spec(y)) is Some <==> key_known_before(ex, items@, changed.set(), i as int, y),
            forall|i2: int| 0 <= i2 < i && changed.set().contains(#[trigger] dept_key(items@[i2])) ==> parent_known(ex, items@, changed.set(), i2),
        decreases items.len() - i,
    {
        proof {
            crate::transfer::portable::lemma_filter_step(all, i as int, f);
            assert forall|y: Seq<char>| key_known_before(ex, items@, changed.set(), i + 1, y) <==> (key_known_before(
                ex,
                items@,
                changed.set(),
                i as int,
                y,
            ) || (changed.set().contains(dept_key(items@[i as int])) && dept_key(items@[i as int]) == y)) by {
                lemma_known_step(ex, items@, changed.set(), i as int, y);
            }
        }
        let item = &items[i];
        let key = join_path(item.path.as_slice());
        if changed.contains(key.as_str()) {
            let n = item.path.len();
            let parent_id = if n <= 1 {
                None
            } else {
                let parent_path = copy_path_prefix(&item.path, n - 1);
                let pk = join_path(parent_path.as_slice());
                proof {
                    assert(item.path@.take(n - 1) =~= item.path@.drop_last());
                }
                match ids.get(pk.as_str()) {
                    Some(p) => Some(*p),
                    None => {
                        proof {
                            assert(!parent_known(ex, items@, changed.set(), i as int));
                            assert(changed.set().contains(dept_key(items@[i as int])));
                        }
                        return Err(AppError::Conflict(owned("部门父路径不存在")));
                    },
                }
            };
            let anc = match parent_id {
                Some(p) => match find_last(ancestors.as_slice(), p) {
                    Some(x) => {
                        proof {
                            assert(ancestors_lookup(ancestors@, p) == Some(ancestors@[x as int].1@));
                        }
                        department_ancestors(parent_id, Some(ancestors[x].1.as_str()))
                    },
                    None => {
                        proof {
                            assert(ancestors_lookup(ancestors@, p) is None);
                        }
                        department_ancestors(parent_id, None)
                    },
                },
                None => department_ancestors(None, None),
            };
            let (id, exists) = match ids.get(key.as_str()) {
                Some(d) => (*d, true),
                None => (new_ids[i], false),
            };
            let name = if n > 0 {
                owned(item.path[n - 1].as_str())
            } else {
                String::new()
            };
            let w = DepartmentWrite { index: i, id, name, parent_id, ancestors: anc, exists };
            let ghost wg = w;
            proof {
                assert(dept_write_ok(ex, existing_ancestors@, items@, changed.set(), new_ids@, writes@.push(wg), writes@.len() as int)) by {
                    let ws1 = writes@.push(wg);
                    assert(ws1.take(writes@.len() as int) =~= writes@);
                    assert(ws1[writes@.len() as int] == wg);
                    let item = items@[i as int];
                    assert(wg.index < items@.len());
                    assert(changed.set().contains(dept_key(item)));
                    assert(wg.parent_id == (match parent_dept_key(item) {
                        Some(pk) => dept_id_known(ex, items@, writes@, pk),
                        None => None,
                    }));
                    assert(wg.id == (match dept_id_known(ex, items@, writes@, dept_key(item)) {
                        Some(id) => id,
                        None => new_ids@[i as int],
                    }));
                    assert(wg.ancestors@ == spec_department_ancestors(wg.parent_id, match wg.parent_id {
                        Some(p) => ancestors_known(existing_ancestors@, writes@, p),
                        None => None,
                    }));
                    assert(wg.name@ == (if item.path@.len() > 0 { item.path@.last()@ } else { Seq::empty() }));
                }
            }
            let ghost before = writes@;
            let ghost before_ids = ids;
            let ghost before_anc = ancestors@;
            ids.upsert(key, id);
            ancestors.push((id, owned(w.ancestors.as_str())));
            writes.push(w);
            proof {
                let ws = writes@;
                assert(ws == before.push(wg));
                assert(ws.drop_last() =~= before);
                assert(ws.last() == wg);
                assert(ancestors@ == before_anc.push((wg.id, ancestors@.last().1)));
                assert(ancestors@.last().1@ == wg.ancestors@);
                assert(ws.take(before.len() as int) =~= before);
                assert forall|y: Seq<char>| #[trigger] ids.get_spec(y) == dept_id_known(ex, items@, ws, y) by {}
                assert forall|id2: i64| #[trigger] ancestors_lookup(ancestors@, id2) == ancestors_known(existing_ancestors@, ws, id2) by {
                    assert(ancestors@.drop_last() =~= before_anc);
                    assert(ancestors_lookup(before_anc, id2) == ancestors_known(existing_ancestors@, before, id2));
                }
                assert(dept_write_ok(ex, existing_ancestors@, items@, changed.set(), new_ids@, ws, before.len() as int));
                assert forall|j: int| 0 <= j < before.len() implies dept_write_ok(ex, existing_ancestors@, items@, changed.set(), new_ids@, ws, j) by {
                    assert(dept_write_ok(ex, existing_ancestors@, items@, changed.set(), new_ids@, before, j));
                    assert(ws.take(j) =~= before.take(j));
                    assert(ws[j] == before[j]);
                }
                assert(ws.map_values(|w: DepartmentWrite| w.index as int) =~= before.map_values(|w: DepartmentWrite| w.index as int).push(
                    i as int,
                ));
            }
        }
        i = i + 1;
    }
    assert(all.take(items@.len() as int) =~= all);
    Ok(writes)
}

proof fn lemma_lookup_views(a: Seq<(i64, String)>, b: Seq<(i64, String)>, id: i64)
    requires
        a.len() == b.len(),
        forall|m: int| 0 <= m < a.len() ==> (#[trigger] a[m]).0 == b[m].0 && a[m].1@ == b[m].1@,
    ensures
        ancestors_lookup(a, id) == ancestors_lookup(b, id),
    decreases a.len(),
{
    if a.len() > 0 {
        assert(a.last() == a[a.len() - 1]);
        lemma_lookup_views(a.drop_last(), b.drop_last(), id);
    }
}

/// The ancestry recorded last for an id, as a view.
pub open spec fn ancestors_lookup(v: Seq<(i64, String)>, id: i64) -> Option<Seq<char>> {
    match lookup(v, id) {
        Some(a) => Some(a@),
        None => None,
    }
}


/// How many roles the plan creates.
pub open spec fn role_creations(items: Seq<TransferItem>) -> nat
    decreases items.len(),
{
    if items.len() == 0 {
        0
    } else {
        role_creations(items.drop_last()) + if items.last().resource_type@ == "role"@ && items.last().action@ == ACTION_CREATE@ {
            1nat
        } else {
            0nat
        }
    }
}

pub fn role_create_count(items: &[TransferItem]) -> (r: u64)
    ensures
        r == role_creations(items@),
{
    let mut n: u64 = 0;
    let mut i: usize = 0;
    while i < items.len()
        invariant
            i <= items.len(),
            n == role_creations(items@.take(i as int)),
            n <= i,
        decreases items.len() - i,
    {
        proof {
            assert(items@.take(i + 1).drop_last() =~= items@.take(i as int));
        }
        if str_eq(items[i].resource_type.as_str(), "role") && str_eq(items[i].action.as_str(), ACTION_CREATE) {
            n = n + 1;
        }
        i = i + 1;
    }
    assert(items@.take(items.len() as int) =~= items@);
    n
}

pub open spec fn spec_role_limit(max_roles: i32) -> int {
    if max_roles < 0 {
        0
    } else {
        max_roles as int
    }
}

/// An apply that creates roles may not take the tenant past its role limit (`max_roles`; zero
/// or negative means no limit): `active` live roles plus `created` new ones.
pub fn check_role_quota(active: u64, created: u64, max_roles: i32) -> (r: AppResult<()>)
    ensures
        r is Ok <==> created == 0 || spec_role_limit(max_roles) == 0 || (if active + created > u64::MAX {
            u64::MAX as int
        } else {
            active + created
        }) <= spec_role_limit(max_roles),
        r is Err ==> r->Err_0 is Validation,
{
    if created == 0 {
        return Ok(());
    }
    let limit: u64 = if max_roles < 0 {
        0
    } else {
        max_roles as u64
    };
    let total = active.saturating_add(created);
    if limit > 0 && total > limit {
        let mut msg = owned("配置应用将使租户角色数超过上限（当前 ");
        push_decimal(&mut msg, active);
        push_str(&mut msg, "，新增 ");
        push_decimal(&mut msg, created);
        push_str(&mut msg, "，上限 ");
        push_decimal(&mut msg, limit);
        push_str(&mut msg, "）");
        return Err(AppError::Validation(msg));
    }
    Ok(())
}

/// Under the tenant's lock, the requester of an operation must still be who they were when it
/// was queued: of this tenant at the current authorization epoch, the tenant available, and
/// the user live, enabled and at the same authorization version. `user` is the live user
/// found (whether enabled, and its authorization version).
pub fn check_requester_snapshot(
    requester_tenant_id: &str,
    requester_epoch: i32,
    requester_version: i64,
    tenant_id: &str,
    fence_epoch: i32,
    tenant_found: bool,
    tenant_available: bool,
    user: Option<(bool, i64)>,
) -> (r: AppResult<()>)
    ensures
        !(requester_tenant_id@ == tenant_id@ && requester_epoch == fence_epoch) ==> r is Err && r->Err_0 is Conflict,
        requester_tenant_id@ == tenant_id@ && requester_epoch == fence_epoch ==> {
            &&& !tenant_found ==> r is Err && r->Err_0 is NotFound
            &&& tenant_found && !tenant_available ==> r is Err && r->Err_0 is Authorization
            &&& tenant_found && tenant_available ==> match user {
                None => r is Err && r->Err_0 is NotFound,
                Some((enabled, version)) => if enabled && version == requester_version {
                    r is Ok
                } else {
                    r is Err && r->Err_0 is Authorization
                },
            }
        },
{
    if !str_eq(requester_tenant_id, tenant_id) || requester_epoch != fence_epoch {
        return Err(AppError::Conflict(owned("申请人授权在执行期间发生变化，请重新发起操作")));
    }
    if !tenant_found {
        return Err(AppError::NotFound(owned("租户不存在")));
    }
    if !tenant_available {
        return Err(AppError::Authorization(owned("申请人的租户已停用或到期")));
    }
    match user {
        None => Err(AppError::NotFound(owned("操作申请人不存在"))),
        Some((enabled, version)) => {
            if !enabled || version != requester_version {
                return Err(AppError::Authorization(owned("申请人账号或授权在执行期间发生变化")));
            }
            Ok(())
        },
    }
}

} // verus!

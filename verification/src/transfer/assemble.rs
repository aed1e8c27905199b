//! Turning a tenant's stored configuration into the resources of a package: the portable
//! permissions and menus with their references rewritten from ids to codes and stable keys,
//! the roles with their permission codes and custom department paths, and the departments by
//! path.
use vstd::prelude::*;

use crate::idset::IdSet;
use crate::text::owned;
use crate::transfer::keys::strings_view;
use crate::transfer::paths::clone_strings;
use crate::transfer::portable::{
    PortableConfig, PortableDepartment, PortableDictData, PortableDictType, PortableMenu, PortablePermission,
    PortablePost, PortableRole, TenantConfigPackageResources, lemma_filter_step,
};
use crate::error::{AppError, AppResult};

verus! {

/// A stored permission.
pub struct PermissionRow {
    pub id: i64,
    pub parent_id: Option<i64>,
    pub code: String,
    pub name: String,
    pub permission_type: String,
    pub icon: Option<String>,
    pub sort: i32,
    pub status: String,
}

pub open spec fn opt_view(o: Option<String>) -> Option<Seq<char>> {
    match o {
        Some(s) => Some(s@),
        None => None,
    }
}

fn opt_copy(o: &Option<String>) -> (r: Option<String>)
    ensures
        opt_view(r) == opt_view(*o),
{
    match o {
        Some(s) => Some(owned(s.as_str())),
        None => None,
    }
}

/// The value of the last entry with id `id` (as a map built from the entries in order holds).
pub open spec fn lookup<T>(v: Seq<(i64, T)>, id: i64) -> Option<T>
    decreases v.len(),
{
    if v.len() == 0 {
        None
    } else if v.last().0 == id {
        Some(v.last().1)
    } else {
        lookup(v.drop_last(), id)
    }
}

/// Position of the last entry with id `id`.
pub fn find_last<T>(v: &[(i64, T)], id: i64) -> (r: Option<usize>)
    ensures
        match r {
            Some(k) => k < v@.len() && v@[k as int].0 == id && lookup(v@, id) == Some(v@[k as int].1),
            None => lookup(v@, id) is None,
        },
{
    let mut i: usize = v.len();
    assert(v@.subrange(0, i as int) =~= v@);
    while i > 0
        invariant
            i <= v@.len(),
            lookup(v@, id) == lookup(v@.subrange(0, i as int), id),
        decreases i,
    {
        let ghost pre = v@.subrange(0, i as int);
        if v[i - 1].0 == id {
            assert(pre.last() == v@[i - 1]);
            return Some(i - 1);
        }
        assert(pre.drop_last() =~= v@.subrange(0, i - 1));
        i = i - 1;
    }
    None
}

/// The code of the last permission with id `id`.
pub open spec fn row_code(rows: Seq<PermissionRow>, id: i64) -> Option<Seq<char>>
    decreases rows.len(),
{
    if rows.len() == 0 {
        None
    } else if rows.last().id == id {
        Some(rows.last().code@)
    } else {
        row_code(rows.drop_last(), id)
    }
}

/// The code a portable permission id stands for in the package.
pub open spec fn portable_code_of(rows: Seq<PermissionRow>, portable: Set<i64>, id: i64) -> Option<Seq<char>> {
    if portable.contains(id) {
        row_code(rows, id)
    } else {
        None
    }
}

fn code_lookup(rows: &[PermissionRow], portable: &IdSet, id: i64) -> (r: Option<String>)
    requires
        portable.wf(),
    ensures
        opt_view(r) == portable_code_of(rows@, portable.set(), id),
{
    if !portable.contains(id) {
        return None;
    }
    let mut i: usize = rows.len();
    assert(rows@.subrange(0, i as int) =~= rows@);
    while i > 0
        invariant
            i <= rows@.len(),
            portable.set().contains(id),
            row_code(rows@, id) == row_code(rows@.subrange(0, i as int), id),
        decreases i,
    {
        let ghost pre = rows@.subrange(0, i as int);
        if rows[i - 1].id == id {
            assert(pre.last() == rows@[i - 1]);
            return Some(owned(rows[i - 1].code.as_str()));
        }
        assert(pre.drop_last() =~= rows@.subrange(0, i - 1));
        i = i - 1;
    }
    None
}

/// A parent reference that is either absent or resolves.
pub open spec fn resolves<T>(reference: Option<i64>, target: spec_fn(i64) -> Option<T>) -> bool {
    match reference {
        Some(p) => target(p) is Some,
        None => true,
    }
}

pub open spec fn resolved<T>(reference: Option<i64>, target: spec_fn(i64) -> Option<T>) -> Option<T> {
    match reference {
        Some(p) => target(p),
        None => None,
    }
}

pub type PermissionView = (Seq<char>, Seq<char>, Option<Seq<char>>, Seq<char>, Option<Seq<char>>, i32, Seq<char>);

pub open spec fn permission_view(p: PortablePermission) -> PermissionView {
    (p.code@, p.name@, opt_view(p.parent_code), p.permission_type@, opt_view(p.icon), p.sort, p.status@)
}

/// The package form of a stored permission: its parent named by code.
pub open spec fn expected_permission(row: PermissionRow, rows: Seq<PermissionRow>, portable: Set<i64>) -> PermissionView {
    (
        row.code@,
        row.name@,
        resolved(row.parent_id, |p: i64| portable_code_of(rows, portable, p)),
        row.permission_type@,
        opt_view(row.icon),
        row.sort,
        row.status@,
    )
}

pub open spec fn is_portable_permission(portable: Set<i64>) -> spec_fn(PermissionRow) -> bool {
    |r: PermissionRow| portable.contains(r.id)
}

pub open spec fn kept_permissions(rows: Seq<PermissionRow>, portable: Set<i64>) -> Seq<PermissionRow> {
    rows.filter(is_portable_permission(portable))
}

pub open spec fn permissions_resolve(kept: Seq<PermissionRow>, rows: Seq<PermissionRow>, portable: Set<i64>) -> bool {
    forall|k: int| 0 <= k < kept.len() ==> resolves(#[trigger] kept[k].parent_id, |p: i64| portable_code_of(rows, portable, p))
}

/// The portable permissions in their stored order, each with its parent named by code; a
/// parent that is not portable is refused.
pub fn portable_permissions(rows: &[PermissionRow], portable: &IdSet) -> (r: AppResult<Vec<PortablePermission>>)
    requires
        portable.wf(),
    ensures
        r is Ok <==> permissions_resolve(kept_permissions(rows@, portable.set()), rows@, portable.set()),
        r is Err ==> r->Err_0 is Validation,
        r matches Ok(v) ==> v@.map_values(|p: PortablePermission| permission_view(p)) == kept_permissions(
            rows@,
            portable.set(),
        ).map_values(|row: PermissionRow| expected_permission(row, rows@, portable.set())),
{
    let ghost ps = portable.set();
    let ghost f = is_portable_permission(ps);
    let mut out: Vec<PortablePermission> = Vec::new();
    let mut i: usize = 0;
    assert(rows@.take(0).filter(f) =~= Seq::<PermissionRow>::empty()) by {
        reveal(Seq::filter);
    }
    while i < rows.len()
        invariant
            i <= rows.len(),
            portable.wf(),
            ps == portable.set(),
            f == is_portable_permission(ps),
            permissions_resolve(rows@.take(i as int).filter(f), rows@, ps),
            out@.map_values(|p: PortablePermission| permission_view(p)) == rows@.take(i as int).filter(f).map_values(
                |row: PermissionRow| expected_permission(row, rows@, ps),
            ),
        decreases rows.len() - i,
    {
        proof {
            lemma_filter_step(rows@, i as int, f);
        }
        let row = &rows[i];
        if portable.contains(row.id) {
            let parent_code = match row.parent_id {
                Some(p) => match code_lookup(rows, portable, p) {
                    Some(c) => Some(c),
                    None => {
                        proof {
                            let kept = kept_permissions(rows@, ps);
                            rows@.filter_lemma(f);
                            assert(kept.contains(rows@[i as int]));
                            let k = choose|k: int| 0 <= k < kept.len() && kept[k] == rows@[i as int];
                            assert(!resolves(kept[k].parent_id, |q: i64| portable_code_of(rows@, ps, q)));
                        }
                        return Err(AppError::Validation(owned("权限父节点不存在")));
                    },
                },
                None => None,
            };
            let p = PortablePermission {
                code: owned(row.code.as_str()),
                name: owned(row.name.as_str()),
                parent_code,
                permission_type: owned(row.permission_type.as_str()),
                icon: opt_copy(&row.icon),
                sort: row.sort,
                status: owned(row.status.as_str()),
            };
            let ghost before = out@;
            out.push(p);
            proof {
                assert(out@.map_values(|p: PortablePermission| permission_view(p)) =~= before.map_values(
                    |p: PortablePermission| permission_view(p),
                ).push(permission_view(p)));
                assert(rows@.take(i + 1).filter(f).map_values(|row: PermissionRow| expected_permission(row, rows@, ps))
                    =~= rows@.take(i as int).filter(f).map_values(|row: PermissionRow| expected_permission(row, rows@, ps)).push(
                    expected_permission(rows@[i as int], rows@, ps),
                ));
                let kept_next = rows@.take(i + 1).filter(f);
                assert forall|k: int| 0 <= k < kept_next.len() implies resolves(
                    #[trigger] kept_next[k].parent_id,
                    |q: i64| portable_code_of(rows@, ps, q),
                ) by {
                    if k < kept_next.len() - 1 {
                        assert(kept_next[k] == rows@.take(i as int).filter(f)[k]);
                    }
                }
            }
        }
        i = i + 1;
    }
    proof {
        assert(rows@.take(rows.len() as int) =~= rows@);
    }
    Ok(out)
}


/// A stored menu.
pub struct MenuRow {
    pub id: i64,
    pub parent_id: Option<i64>,
    pub name: String,
    pub menu_type: String,
    pub perm_id: Option<i64>,
    pub route_key: Option<String>,
    pub icon: Option<String>,
    pub sort: i32,
    pub visible: bool,
    pub status: String,
    pub remark: Option<String>,
}

/// The stable key resolved for a menu id.
pub open spec fn key_of(keys: Seq<(i64, String)>, id: i64) -> Option<Seq<char>> {
    match lookup(keys, id) {
        Some(k) => Some(k@),
        None => None,
    }
}

fn key_lookup(keys: &[(i64, String)], id: i64) -> (r: Option<String>)
    ensures
        opt_view(r) == key_of(keys@, id),
{
    match find_last(keys, id) {
        Some(k) => Some(owned(keys[k].1.as_str())),
        None => None,
    }
}

pub type MenuView = (
    Seq<char>,
    Option<Seq<char>>,
    Seq<char>,
    Seq<char>,
    Option<Seq<char>>,
    Option<Seq<char>>,
    Option<Seq<char>>,
    i32,
    bool,
    Seq<char>,
    Option<Seq<char>>,
);

pub open spec fn menu_view(m: PortableMenu) -> MenuView {
    (
        m.stable_key@,
        opt_view(m.parent_stable_key),
        m.name@,
        m.menu_type@,
        opt_view(m.permission_code),
        opt_view(m.route_key),
        opt_view(m.icon),
        m.sort,
        m.visible,
        m.status@,
        opt_view(m.remark),
    )
}

/// The package form of a stored menu: itself and its parent named by stable key, its
/// permission by code.
pub open spec fn expected_menu(
    row: MenuRow,
    keys: Seq<(i64, String)>,
    perm_rows: Seq<PermissionRow>,
    portable_perms: Set<i64>,
) -> MenuView {
    (
        key_of(keys, row.id).unwrap(),
        resolved(row.parent_id, |p: i64| key_of(keys, p)),
        row.name@,
        row.menu_type@,
        resolved(row.perm_id, |p: i64| portable_code_of(perm_rows, portable_perms, p)),
        opt_view(row.route_key),
        opt_view(row.icon),
        row.sort,
        row.visible,
        row.status@,
        opt_view(row.remark),
    )
}

pub open spec fn menu_resolves(
    row: MenuRow,
    keys: Seq<(i64, String)>,
    perm_rows: Seq<PermissionRow>,
    portable_perms: Set<i64>,
) -> bool {
    &&& key_of(keys, row.id) is Some
    &&& resolves(row.parent_id, |p: i64| key_of(keys, p))
    &&& resolves(row.perm_id, |p: i64| portable_code_of(perm_rows, portable_perms, p))
}

pub open spec fn is_portable_menu(portable: Set<i64>) -> spec_fn(MenuRow) -> bool {
    |r: MenuRow| portable.contains(r.id)
}

pub open spec fn kept_menus(rows: Seq<MenuRow>, portable: Set<i64>) -> Seq<MenuRow> {
    rows.filter(is_portable_menu(portable))
}

pub open spec fn menus_resolve(
    kept: Seq<MenuRow>,
    keys: Seq<(i64, String)>,
    perm_rows: Seq<PermissionRow>,
    portable_perms: Set<i64>,
) -> bool {
    forall|k: int| 0 <= k < kept.len() ==> menu_resolves(#[trigger] kept[k], keys, perm_rows, portable_perms)
}

/// The portable menus in their stored order, named by stable key (`keys`, as resolved for every
/// menu), with their parent named by key and their permission by code; a reference that does
/// not resolve is refused.
pub fn portable_menus(
    rows: &[MenuRow],
    portable: &IdSet,
    keys: &[(i64, String)],
    perm_rows: &[PermissionRow],
    portable_perms: &IdSet,
) -> (r: AppResult<Vec<PortableMenu>>)
    requires
        portable.wf(),
        portable_perms.wf(),
    ensures
        r is Ok <==> menus_resolve(kept_menus(rows@, portable.set()), keys@, perm_rows@, portable_perms.set()),
        r is Err ==> r->Err_0 is Validation,
        r matches Ok(v) ==> v@.map_values(|m: PortableMenu| menu_view(m)) == kept_menus(rows@, portable.set()).map_values(
            |row: MenuRow| expected_menu(row, keys@, perm_rows@, portable_perms.set()),
        ),
{
    let ghost ms = portable.set();
    let ghost pp = portable_perms.set();
    let ghost f = is_portable_menu(ms);
    let mut out: Vec<PortableMenu> = Vec::new();
    let mut i: usize = 0;
    assert(rows@.take(0).filter(f) =~= Seq::<MenuRow>::empty()) by {
        reveal(Seq::filter);
    }
    while i < rows.len()
        invariant
            i <= rows.len(),
            portable.wf(),
            portable_perms.wf(),
            ms == portable.set(),
            pp == portable_perms.set(),
            f == is_portable_menu(ms),
            menus_resolve(rows@.take(i as int).filter(f), keys@, perm_rows@, pp),
            out@.map_values(|m: PortableMenu| menu_view(m)) == rows@.take(i as int).filter(f).map_values(
                |row: MenuRow| expected_menu(row, keys@, perm_rows@, pp),
            ),
        decreases rows.len() - i,
    {
        proof {
            lemma_filter_step(rows@, i as int, f);
        }
        let row = &rows[i];
        if portable.contains(row.id) {
            let stable_key = key_lookup(keys, row.id);
            let parent_key = match row.parent_id {
                Some(p) => key_lookup(keys, p),
                None => None,
            };
            let permission_code = match row.perm_id {
                Some(p) => code_lookup(perm_rows, portable_perms, p),
                None => None,
            };
            let ok = stable_key.is_some() && (row.parent_id.is_none() || parent_key.is_some()) && (row.perm_id.is_none()
                || permission_code.is_some());
            if !ok {
                proof {
                    let kept = kept_menus(rows@, ms);
                    rows@.filter_lemma(f);
                    assert(kept.contains(rows@[i as int]));
                    let k = choose|k: int| 0 <= k < kept.len() && kept[k] == rows@[i as int];
                    assert(!menu_resolves(kept[k], keys@, perm_rows@, pp));
                }
                return Err(AppError::Validation(owned(
                    match stable_key {
                        None => "菜单稳定键解析失败",
                        Some(_) => if row.parent_id.is_some() && parent_key.is_none() {
                            "菜单父节点不存在"
                        } else {
                            "菜单权限不存在"
                        },
                    },
                )));
            }
            let m = PortableMenu {
                stable_key: match stable_key {
                    Some(k) => k,
                    None => String::new(),
                },
                parent_stable_key: parent_key,
                name: owned(row.name.as_str()),
                menu_type: owned(row.menu_type.as_str()),
                permission_code,
                route_key: opt_copy(&row.route_key),
                icon: opt_copy(&row.icon),
                sort: row.sort,
                visible: row.visible,
                status: owned(row.status.as_str()),
                remark: opt_copy(&row.remark),
            };
            let ghost before = out@;
            out.push(m);
            proof {
                assert(out@.map_values(|m: PortableMenu| menu_view(m)) =~= before.map_values(|m: PortableMenu| menu_view(m)).push(
                    menu_view(m),
                ));
                assert(rows@.take(i + 1).filter(f).map_values(|row: MenuRow| expected_menu(row, keys@, perm_rows@, pp))
                    =~= rows@.take(i as int).filter(f).map_values(|row: MenuRow| expected_menu(row, keys@, perm_rows@, pp)).push(
                    expected_menu(rows@[i as int], keys@, perm_rows@, pp),
                ));
                let kept_next = rows@.take(i + 1).filter(f);
                assert forall|k: int| 0 <= k < kept_next.len() implies menu_resolves(
                    #[trigger] kept_next[k],
                    keys@,
                    perm_rows@,
                    pp,
                ) by {
                    if k < kept_next.len() - 1 {
                        assert(kept_next[k] == rows@.take(i as int).filter(f)[k]);
                    }
                }
            }
        }
        i = i + 1;
    }
    proof {
        assert(rows@.take(rows.len() as int) =~= rows@);
    }
    Ok(out)
}


/// The relations (role, permission) of role `role_id` to portable permissions.
pub open spec fn role_permission_filter(role_id: i64, portable: Set<i64>) -> spec_fn((i64, i64)) -> bool {
    |x: (i64, i64)| x.0 == role_id && portable.contains(x.1)
}

pub open spec fn role_codes_resolve(rel: Seq<(i64, i64)>, perm_rows: Seq<PermissionRow>, portable: Set<i64>) -> bool {
    forall|k: int| 0 <= k < rel.len() ==> portable_code_of(perm_rows, portable, (#[trigger] rel[k]).1) is Some
}

/// The codes of the portable permissions of role `role_id`, in the relations' order.
pub fn role_permission_codes(
    role_id: i64,
    relations: &[(i64, i64)],
    perm_rows: &[PermissionRow],
    portable: &IdSet,
) -> (r: AppResult<Vec<String>>)
    requires
        portable.wf(),
    ensures
        ({
            let rel = relations@.filter(role_permission_filter(role_id, portable.set()));
            &&& r is Ok <==> role_codes_resolve(rel, perm_rows@, portable.set())
            &&& r is Err ==> r->Err_0 is Validation
            &&& r matches Ok(v) ==> strings_view(v@) == rel.map_values(
                |x: (i64, i64)| portable_code_of(perm_rows@, portable.set(), x.1).unwrap(),
            )
        }),
{
    let ghost ps = portable.set();
    let ghost f = role_permission_filter(role_id, ps);
    let mut out: Vec<String> = Vec::new();
    let mut i: usize = 0;
    assert(relations@.take(0).filter(f) =~= Seq::<(i64, i64)>::empty()) by {
        reveal(Seq::filter);
    }
    while i < relations.len()
        invariant
            i <= relations.len(),
            portable.wf(),
            ps == portable.set(),
            f == role_permission_filter(role_id, ps),
            role_codes_resolve(relations@.take(i as int).filter(f), perm_rows@, ps),
            strings_view(out@) == relations@.take(i as int).filter(f).map_values(
                |x: (i64, i64)| portable_code_of(perm_rows@, ps, x.1).unwrap(),
            ),
        decreases relations.len() - i,
    {
        proof {
            lemma_filter_step(relations@, i as int, f);
        }
        let (role, perm) = relations[i];
        if role == role_id && portable.contains(perm) {
            match code_lookup(perm_rows, portable, perm) {
                Some(code) => {
                    let ghost before = out@;
                    out.push(code);
                    proof {
                        assert(strings_view(out@) =~= strings_view(before).push(code@));
                        assert(relations@.take(i + 1).filter(f).map_values(
                            |x: (i64, i64)| portable_code_of(perm_rows@, ps, x.1).unwrap(),
                        ) =~= relations@.take(i as int).filter(f).map_values(
                            |x: (i64, i64)| portable_code_of(perm_rows@, ps, x.1).unwrap(),
                        ).push(portable_code_of(perm_rows@, ps, relations@[i as int].1).unwrap()));
                        let kept_next = relations@.take(i + 1).filter(f);
                        assert forall|k: int| 0 <= k < kept_next.len() implies portable_code_of(
                            perm_rows@,
                            ps,
                            (#[trigger] kept_next[k]).1,
                        ) is Some by {
                            if k < kept_next.len() - 1 {
                                assert(kept_next[k] == relations@.take(i as int).filter(f)[k]);
                            }
                        }
                    }
                },
                None => {
                    proof {
                        let kept = relations@.filter(f);
                        relations@.filter_lemma(f);
                        assert(kept.contains(relations@[i as int]));
                        let k = choose|k: int| 0 <= k < kept.len() && kept[k] == relations@[i as int];
                        assert(portable_code_of(perm_rows@, ps, kept[k].1) is None);
                    }
                    return Err(AppError::Validation(owned("角色权限引用不存在")));
                },
            }
        }
        i = i + 1;
    }
    proof {
        assert(relations@.take(relations.len() as int) =~= relations@);
    }
    Ok(out)
}

/// The path of a department id, as resolved for every department.
pub open spec fn path_of(paths: Seq<(i64, Vec<String>)>, id: i64) -> Option<Seq<Seq<char>>> {
    match lookup(paths, id) {
        Some(p) => Some(strings_view(p@)),
        None => None,
    }
}

fn path_lookup(paths: &[(i64, Vec<String>)], id: i64) -> (r: Option<Vec<String>>)
    ensures
        match r {
            Some(p) => path_of(paths@, id) == Some(strings_view(p@)),
            None => path_of(paths@, id) is None,
        },
{
    match find_last(paths, id) {
        Some(k) => Some(clone_strings(&paths[k].1)),
        None => None,
    }
}

pub open spec fn paths_view(v: Seq<Vec<String>>) -> Seq<Seq<Seq<char>>> {
    v.map_values(|p: Vec<String>| strings_view(p@))
}

pub open spec fn role_department_filter(role_id: i64) -> spec_fn((i64, i64)) -> bool {
    |x: (i64, i64)| x.0 == role_id
}

pub open spec fn role_paths_resolve(rel: Seq<(i64, i64)>, paths: Seq<(i64, Vec<String>)>) -> bool {
    forall|k: int| 0 <= k < rel.len() ==> path_of(paths, (#[trigger] rel[k]).1) is Some
}

/// The paths of the custom departments of role `role_id`, in the relations' order.
pub fn role_department_paths(role_id: i64, relations: &[(i64, i64)], paths: &[(i64, Vec<String>)]) -> (r: AppResult<
    Vec<Vec<String>>,
>)
    ensures
        ({
            let rel = relations@.filter(role_department_filter(role_id));
            &&& r is Ok <==> role_paths_resolve(rel, paths@)
            &&& r is Err ==> r->Err_0 is Validation
            &&& r matches Ok(v) ==> paths_view(v@) == rel.map_values(|x: (i64, i64)| path_of(paths@, x.1).unwrap())
        }),
{
    let ghost f = role_department_filter(role_id);
    let mut out: Vec<Vec<String>> = Vec::new();
    let mut i: usize = 0;
    assert(relations@.take(0).filter(f) =~= Seq::<(i64, i64)>::empty()) by {
        reveal(Seq::filter);
    }
    while i < relations.len()
        invariant
            i <= relations.len(),
            f == role_department_filter(role_id),
            role_paths_resolve(relations@.take(i as int).filter(f), paths@),
            paths_view(out@) == relations@.take(i as int).filter(f).map_values(|x: (i64, i64)| path_of(paths@, x.1).unwrap()),
        decreases relations.len() - i,
    {
        proof {
            lemma_filter_step(relations@, i as int, f);
        }
        let (role, dept) = relations[i];
        if role == role_id {
            match path_lookup(paths, dept) {
                Some(p) => {
                    let ghost before = out@;
                    out.push(p);
                    proof {
                        assert(paths_view(out@) =~= paths_view(before).push(strings_view(p@)));
                        assert(relations@.take(i + 1).filter(f).map_values(|x: (i64, i64)| path_of(paths@, x.1).unwrap())
                            =~= relations@.take(i as int).filter(f).map_values(|x: (i64, i64)| path_of(paths@, x.1).unwrap()).push(
                            path_of(paths@, relations@[i as int].1).unwrap(),
                        ));
                        let kept_next = relations@.take(i + 1).filter(f);
                        assert forall|k: int| 0 <= k < kept_next.len() implies path_of(paths@, (#[trigger] kept_next[k]).1)
                            is Some by {
                            if k < kept_next.len() - 1 {
                                assert(kept_next[k] == relations@.take(i as int).filter(f)[k]);
                            }
                        }
                    }
                },
                None => {
                    proof {
                        let kept = relations@.filter(f);
                        relations@.filter_lemma(f);
                        assert(kept.contains(relations@[i as int]));
                        let k = choose|k: int| 0 <= k < kept.len() && kept[k] == relations@[i as int];
                        assert(path_of(paths@, kept[k].1) is None);
                    }
                    return Err(AppError::Validation(owned("角色部门引用不存在")));
                },
            }
        }
        i = i + 1;
    }
    proof {
        assert(relations@.take(relations.len() as int) =~= relations@);
    }
    Ok(out)
}


/// A stored role (live and not the super role).
pub struct RoleRow {
    pub id: i64,
    pub code: String,
    pub name: String,
    pub data_scope: String,
    pub status: String,
    pub sort: i32,
    pub remark: Option<String>,
}

/// No earlier role has the same id (a repeated id gets no relations, as a map drained by id
/// would give it).
pub open spec fn first_occurrence(roles: Seq<RoleRow>, k: int) -> bool {
    forall|j: int| 0 <= j < k ==> (#[trigger] roles[j]).id != roles[k].id
}

pub open spec fn expected_role_codes(
    roles: Seq<RoleRow>,
    k: int,
    rel: Seq<(i64, i64)>,
    perm_rows: Seq<PermissionRow>,
    portable: Set<i64>,
) -> Seq<Seq<char>> {
    if first_occurrence(roles, k) {
        rel.filter(role_permission_filter(roles[k].id, portable)).map_values(
            |x: (i64, i64)| portable_code_of(perm_rows, portable, x.1).unwrap(),
        )
    } else {
        Seq::empty()
    }
}

pub open spec fn expected_role_paths(
    roles: Seq<RoleRow>,
    k: int,
    rel: Seq<(i64, i64)>,
    paths: Seq<(i64, Vec<String>)>,
) -> Seq<Seq<Seq<char>>> {
    if first_occurrence(roles, k) {
        rel.filter(role_department_filter(roles[k].id)).map_values(|x: (i64, i64)| path_of(paths, x.1).unwrap())
    } else {
        Seq::empty()
    }
}

pub open spec fn roles_codes_resolve(
    roles: Seq<RoleRow>,
    rel: Seq<(i64, i64)>,
    perm_rows: Seq<PermissionRow>,
    portable: Set<i64>,
) -> bool {
    forall|k: int| 0 <= k < roles.len() && first_occurrence(roles, k) ==> role_codes_resolve(
        rel.filter(role_permission_filter((#[trigger] roles[k]).id, portable)),
        perm_rows,
        portable,
    )
}

pub open spec fn roles_paths_resolve(roles: Seq<RoleRow>, rel: Seq<(i64, i64)>, paths: Seq<(i64, Vec<String>)>) -> bool {
    forall|k: int| 0 <= k < roles.len() && first_occurrence(roles, k) ==> role_paths_resolve(
        rel.filter(role_department_filter((#[trigger] roles[k]).id)),
        paths,
    )
}

pub type RoleView = (Seq<char>, Seq<char>, Seq<char>, Seq<char>, i32, Option<Seq<char>>, Seq<Seq<char>>, Seq<Seq<Seq<char>>>);

pub open spec fn role_view(r: PortableRole) -> RoleView {
    (
        r.code@,
        r.name@,
        r.data_scope@,
        r.status@,
        r.sort,
        opt_view(r.remark),
        strings_view(r.permission_codes@),
        paths_view(r.custom_department_paths@),
    )
}

pub open spec fn expected_role(
    roles: Seq<RoleRow>,
    k: int,
    role_permissions: Seq<(i64, i64)>,
    role_departments: Seq<(i64, i64)>,
    perm_rows: Seq<PermissionRow>,
    portable: Set<i64>,
    paths: Seq<(i64, Vec<String>)>,
) -> RoleView {
    (
        roles[k].code@,
        roles[k].name@,
        roles[k].data_scope@,
        roles[k].status@,
        roles[k].sort,
        opt_view(roles[k].remark),
        expected_role_codes(roles, k, role_permissions, perm_rows, portable),
        expected_role_paths(roles, k, role_departments, paths),
    )
}

proof fn lemma_seen_first(roles: Seq<RoleRow>, i: int, seen: Set<i64>)
    requires
        0 <= i < roles.len(),
        seen == Set::new(|id: i64| exists|j: int| 0 <= j < i && (#[trigger] roles[j]).id == id),
    ensures
        first_occurrence(roles, i) <==> !seen.contains(roles[i].id),
{
    if !first_occurrence(roles, i) {
        let j = choose|j: int| 0 <= j < i && (#[trigger] roles[j]).id == roles[i].id;
        assert(seen.contains(roles[i].id));
    }
}

/// The package roles in their stored order, each with the codes of its portable permissions
/// and the paths of its custom departments (a repeated role id gets neither). All permission
/// references are resolved before any department reference.
pub fn portable_roles(
    roles: &[RoleRow],
    role_permissions: &[(i64, i64)],
    role_departments: &[(i64, i64)],
    perm_rows: &[PermissionRow],
    portable: &IdSet,
    paths: &[(i64, Vec<String>)],
) -> (r: AppResult<Vec<PortableRole>>)
    requires
        portable.wf(),
    ensures
        r is Ok <==> roles_codes_resolve(roles@, role_permissions@, perm_rows@, portable.set()) && roles_paths_resolve(
            roles@,
            role_departments@,
            paths@,
        ),
        r is Err ==> r->Err_0 is Validation,
        r matches Ok(v) ==> v@.len() == roles@.len() && forall|k: int| 0 <= k < v@.len() ==> role_view(#[trigger] v@[k])
            == expected_role(roles@, k, role_permissions@, role_departments@, perm_rows@, portable.set(), paths@),
{
    let ghost ps = portable.set();
    let ghost rs = roles@;
    // Permission codes of every role.
    let mut codes: Vec<Vec<String>> = Vec::new();
    let mut seen = IdSet::new();
    let mut i: usize = 0;
    while i < roles.len()
        invariant
            i <= roles.len(),
            rs == roles@,
            portable.wf(),
            ps == portable.set(),
            seen.wf(),
            seen.set() == Set::new(|id: i64| exists|j: int| 0 <= j < i && (#[trigger] rs[j]).id == id),
            codes@.len() == i,
            forall|k: int| 0 <= k < i ==> strings_view((#[trigger] codes@[k])@) == expected_role_codes(rs, k, role_permissions@, perm_rows@, ps),
            forall|k: int| 0 <= k < i && first_occurrence(rs, k) ==> role_codes_resolve(
                role_permissions@.filter(role_permission_filter((#[trigger] rs[k]).id, ps)),
                perm_rows@,
                ps,
            ),
        decreases roles.len() - i,
    {
        let id = roles[i].id;
        proof {
            lemma_seen_first(rs, i as int, seen.set());
        }
        let c = if seen.contains(id) {
            let empty: Vec<String> = Vec::new();
            assert(strings_view(empty@) =~= Seq::<Seq<char>>::empty());
            empty
        } else {
            match role_permission_codes(id, role_permissions, perm_rows, portable) {
                Ok(c) => c,
                Err(e) => {
                    return Err(e);
                },
            }
        };
        let ghost before = seen.set();
        seen.insert(id);
        codes.push(c);
        proof {
            assert(seen.set() =~= Set::new(|x: i64| exists|j: int| 0 <= j < i + 1 && (#[trigger] rs[j]).id == x)) by {
                assert forall|x: i64| seen.set().contains(x) <==> exists|j: int| 0 <= j < i + 1 && (#[trigger] rs[j]).id == x by {
                    if exists|j: int| 0 <= j < i + 1 && (#[trigger] rs[j]).id == x {
                        let j = choose|j: int| 0 <= j < i + 1 && (#[trigger] rs[j]).id == x;
                        if j < i {
                            assert(before.contains(x));
                        }
                    }
                    if before.contains(x) {
                        let j = choose|j: int| 0 <= j < i && (#[trigger] rs[j]).id == x;
                        assert(0 <= j < i + 1 && rs[j].id == x);
                    }
                }
            }
        }
        i = i + 1;
    }
    // Custom department paths of every role.
    let mut dept_paths: Vec<Vec<Vec<String>>> = Vec::new();
    let mut seen = IdSet::new();
    let mut i: usize = 0;
    while i < roles.len()
        invariant
            i <= roles.len(),
            rs == roles@,
            seen.wf(),
            seen.set() == Set::new(|id: i64| exists|j: int| 0 <= j < i && (#[trigger] rs[j]).id == id),
            dept_paths@.len() == i,
            forall|k: int| 0 <= k < i ==> paths_view((#[trigger] dept_paths@[k])@) == expected_role_paths(rs, k, role_departments@, paths@),
            forall|k: int| 0 <= k < i && first_occurrence(rs, k) ==> role_paths_resolve(
                role_departments@.filter(role_department_filter((#[trigger] rs[k]).id)),
                paths@,
            ),
        decreases roles.len() - i,
    {
        let id = roles[i].id;
        proof {
            lemma_seen_first(rs, i as int, seen.set());
        }
        let d = if seen.contains(id) {
            let empty: Vec<Vec<String>> = Vec::new();
            assert(paths_view(empty@) =~= Seq::<Seq<Seq<char>>>::empty());
            empty
        } else {
            match role_department_paths(id, role_departments, paths) {
                Ok(d) => d,
                Err(e) => {
                    return Err(e);
                },
            }
        };
        let ghost before = seen.set();
        seen.insert(id);
        dept_paths.push(d);
        proof {
            assert(seen.set() =~= Set::new(|x: i64| exists|j: int| 0 <= j < i + 1 && (#[trigger] rs[j]).id == x)) by {
                assert forall|x: i64| seen.set().contains(x) <==> exists|j: int| 0 <= j < i + 1 && (#[trigger] rs[j]).id == x by {
                    if exists|j: int| 0 <= j < i + 1 && (#[trigger] rs[j]).id == x {
                        let j = choose|j: int| 0 <= j < i + 1 && (#[trigger] rs[j]).id == x;
                        if j < i {
                            assert(before.contains(x));
                        }
                    }
                    if before.contains(x) {
                        let j = choose|j: int| 0 <= j < i && (#[trigger] rs[j]).id == x;
                        assert(0 <= j < i + 1 && rs[j].id == x);
                    }
                }
            }
        }
        i = i + 1;
    }
    // The roles themselves.
    let mut out: Vec<PortableRole> = Vec::new();
    let mut i: usize = 0;
    while i < roles.len()
        invariant
            i <= roles.len(),
            rs == roles@,
            ps == portable.set(),
            codes@.len() == roles@.len(),
            dept_paths@.len() == roles@.len(),
            forall|k: int| 0 <= k < roles@.len() ==> strings_view((#[trigger] codes@[k])@) == expected_role_codes(rs, k, role_permissions@, perm_rows@, ps),
            forall|k: int| 0 <= k < roles@.len() ==> paths_view((#[trigger] dept_paths@[k])@) == expected_role_paths(rs, k, role_departments@, paths@),
            out@.len() == i,
            forall|k: int| 0 <= k < i ==> role_view(#[trigger] out@[k]) == expected_role(rs, k, role_permissions@, role_departments@, perm_rows@, ps, paths@),
        decreases roles.len() - i,
    {
        let row = &roles[i];
        let role = PortableRole {
            code: owned(row.code.as_str()),
            name: owned(row.name.as_str()),
            data_scope: owned(row.data_scope.as_str()),
            status: owned(row.status.as_str()),
            sort: row.sort,
            remark: opt_copy(&row.remark),
            permission_codes: clone_strings(&codes[i]),
            custom_department_paths: clone_paths(&dept_paths[i]),
        };
        out.push(role);
        proof {
            assert(role_view(out@[i as int]) == expected_role(rs, i as int, role_permissions@, role_departments@, perm_rows@, ps, paths@));
        }
        i = i + 1;
    }
    Ok(out)
}

fn clone_paths(v: &Vec<Vec<String>>) -> (r: Vec<Vec<String>>)
    ensures
        paths_view(r@) == paths_view(v@),
{
    let mut r: Vec<Vec<String>> = Vec::new();
    let mut i: usize = 0;
    while i < v.len()
        invariant
            i <= v.len(),
            r@.len() == i,
            forall|k: int| 0 <= k < i ==> strings_view((#[trigger] r@[k])@) == strings_view(v@[k]@),
        decreases v.len() - i,
    {
        r.push(clone_strings(&v[i]));
        i = i + 1;
    }
    assert(paths_view(r@) =~= paths_view(v@));
    r
}


/// A stored department (its path is resolved separately).
pub struct DeptRow {
    pub id: i64,
    pub sort: i32,
    pub status: String,
    pub remark: Option<String>,
}

pub type DepartmentView = (Seq<Seq<char>>, i32, Seq<char>, Option<Seq<char>>);

pub open spec fn department_view(d: PortableDepartment) -> DepartmentView {
    (strings_view(d.path@), d.sort, d.status@, opt_view(d.remark))
}

pub open spec fn expected_department(row: DeptRow, paths: Seq<(i64, Vec<String>)>) -> DepartmentView {
    (path_of(paths, row.id).unwrap(), row.sort, row.status@, opt_view(row.remark))
}

pub open spec fn departments_resolve(rows: Seq<DeptRow>, paths: Seq<(i64, Vec<String>)>) -> bool {
    forall|k: int| 0 <= k < rows.len() ==> path_of(paths, (#[trigger] rows[k]).id) is Some
}

/// The package departments in their stored order, each named by its path.
pub fn portable_departments(rows: &[DeptRow], paths: &[(i64, Vec<String>)]) -> (r: AppResult<Vec<PortableDepartment>>)
    ensures
        r is Ok <==> departments_resolve(rows@, paths@),
        r is Err ==> r->Err_0 is Validation,
        r matches Ok(v) ==> v@.len() == rows@.len() && forall|k: int| 0 <= k < v@.len() ==> department_view(#[trigger] v@[k])
            == expected_department(rows@[k], paths@),
{
    let mut out: Vec<PortableDepartment> = Vec::new();
    let mut i: usize = 0;
    while i < rows.len()
        invariant
            i <= rows.len(),
            out@.len() == i,
            forall|k: int| 0 <= k < i ==> path_of(paths@, (#[trigger] rows@[k]).id) is Some,
            forall|k: int| 0 <= k < i ==> department_view(#[trigger] out@[k]) == expected_department(rows@[k], paths@),
        decreases rows.len() - i,
    {
        let row = &rows[i];
        match path_lookup(paths, row.id) {
            Some(path) => {
                out.push(PortableDepartment { path, sort: row.sort, status: owned(row.status.as_str()), remark: opt_copy(&row.remark) });
            },
            None => {
                return Err(AppError::Validation(owned("部门路径不存在")));
            },
        }
        i = i + 1;
    }
    Ok(out)
}

/// Everything read from a tenant's configuration for a package, with the department paths and
/// menu stable keys already resolved and the portable permissions and menus selected.
pub struct StoredConfiguration {
    pub departments: Vec<DeptRow>,
    pub department_paths: Vec<(i64, Vec<String>)>,
    pub posts: Vec<PortablePost>,
    pub dict_types: Vec<PortableDictType>,
    pub dict_data: Vec<PortableDictData>,
    pub configs: Vec<PortableConfig>,
    pub permissions: Vec<PermissionRow>,
    pub portable_permission_ids: IdSet,
    pub menus: Vec<MenuRow>,
    pub menu_keys: Vec<(i64, String)>,
    pub portable_menu_ids: IdSet,
    pub roles: Vec<RoleRow>,
    pub role_permissions: Vec<(i64, i64)>,
    pub role_departments: Vec<(i64, i64)>,
}

/// Every reference of the stored configuration resolves.
pub open spec fn configuration_resolves(c: StoredConfiguration) -> bool {
    let pp = c.portable_permission_ids.set();
    &&& permissions_resolve(kept_permissions(c.permissions@, pp), c.permissions@, pp)
    &&& menus_resolve(kept_menus(c.menus@, c.portable_menu_ids.set()), c.menu_keys@, c.permissions@, pp)
    &&& roles_codes_resolve(c.roles@, c.role_permissions@, c.permissions@, pp)
    &&& roles_paths_resolve(c.roles@, c.role_departments@, c.department_paths@)
    &&& departments_resolve(c.departments@, c.department_paths@)
}

/// Builds the resources of a package from a tenant's stored configuration: portable
/// permissions and menus with their references by code and stable key, roles with their
/// permission codes and custom department paths, departments by path, and the posts,
/// dictionaries and portable configuration values as they are. A reference that does not
/// resolve is refused (checked in that order: permissions, menus, roles' permissions, roles'
/// departments, departments).
pub fn assemble_package_resources(c: StoredConfiguration) -> (r: AppResult<TenantConfigPackageResources>)
    requires
        c.portable_permission_ids.wf(),
        c.portable_menu_ids.wf(),
    ensures
        r is Ok <==> configuration_resolves(c),
        r is Err ==> r->Err_0 is Validation,
        r matches Ok(v) ==> {
            let pp = c.portable_permission_ids.set();
            &&& v.permissions@.map_values(|p: PortablePermission| permission_view(p)) == kept_permissions(c.permissions@, pp).map_values(
                |row: PermissionRow| expected_permission(row, c.permissions@, pp),
            )
            &&& v.menus@.map_values(|m: PortableMenu| menu_view(m)) == kept_menus(c.menus@, c.portable_menu_ids.set()).map_values(
                |row: MenuRow| expected_menu(row, c.menu_keys@, c.permissions@, pp),
            )
            &&& v.roles@.len() == c.roles@.len()
            &&& forall|k: int| 0 <= k < v.roles@.len() ==> role_view(#[trigger] v.roles@[k]) == expected_role(
                c.roles@,
                k,
                c.role_permissions@,
                c.role_departments@,
                c.permissions@,
                pp,
                c.department_paths@,
            )
            &&& v.departments@.len() == c.departments@.len()
            &&& forall|k: int| 0 <= k < v.departments@.len() ==> department_view(#[trigger] v.departments@[k])
                == expected_department(c.departments@[k], c.department_paths@)
            &&& v.posts == c.posts
            &&& v.dict_types == c.dict_types
            &&& v.dict_data == c.dict_data
            &&& v.configs == c.configs
        },
{
    let permissions = portable_permissions(c.permissions.as_slice(), &c.portable_permission_ids)?;
    let menus = portable_menus(
        c.menus.as_slice(),
        &c.portable_menu_ids,
        c.menu_keys.as_slice(),
        c.permissions.as_slice(),
        &c.portable_permission_ids,
    )?;
    let roles = portable_roles(
        c.roles.as_slice(),
        c.role_permissions.as_slice(),
        c.role_departments.as_slice(),
        c.permissions.as_slice(),
        &c.portable_permission_ids,
        c.department_paths.as_slice(),
    )?;
    let departments = portable_departments(c.departments.as_slice(), c.department_paths.as_slice())?;
    let StoredConfiguration { posts, dict_types, dict_data, configs, .. } = c;
    Ok(TenantConfigPackageResources { departments, posts, dict_types, dict_data, configs, permissions, menus, roles })
}

/// The package carries exactly the portable permissions: each one it keeps has a portable id,
/// and each stored permission with a portable id is kept.
pub proof fn law_kept_permissions_are_exactly_the_portable_ones(rows: Seq<PermissionRow>, portable: Set<i64>)
    ensures
        ({
            let kept = kept_permissions(rows, portable);
            &&& forall|i: int| 0 <= i < kept.len() ==> portable.contains((#[trigger] kept[i]).id)
            &&& forall|j: int| 0 <= j < rows.len() && portable.contains((#[trigger] rows[j]).id) ==> kept.contains(rows[j])
        }),
{
    let f = is_portable_permission(portable);
    broadcast use vstd::seq_lib::group_filter_ensures;
    let kept = rows.filter(f);
    assert forall|i: int| 0 <= i < kept.len() implies portable.contains((#[trigger] kept[i]).id) by {
        assert(f(kept[i]));
    }
    assert forall|j: int| 0 <= j < rows.len() && portable.contains((#[trigger] rows[j]).id) implies kept.contains(rows[j]) by {
        assert(f(rows[j]));
    }
}

/// The package carries exactly the portable menus: each one it keeps has a portable id, and
/// each stored menu with a portable id is kept.
pub proof fn law_kept_menus_are_exactly_the_portable_ones(rows: Seq<MenuRow>, portable: Set<i64>)
    ensures
        ({
            let kept = kept_menus(rows, portable);
            &&& forall|i: int| 0 <= i < kept.len() ==> portable.contains((#[trigger] kept[i]).id)
            &&& forall|j: int| 0 <= j < rows.len() && portable.contains((#[trigger] rows[j]).id) ==> kept.contains(rows[j])
        }),
{
    let f = is_portable_menu(portable);
    broadcast use vstd::seq_lib::group_filter_ensures;
    let kept = rows.filter(f);
    assert forall|i: int| 0 <= i < kept.len() implies portable.contains((#[trigger] kept[i]).id) by {
        assert(f(kept[i]));
    }
    assert forall|j: int| 0 <= j < rows.len() && portable.contains((#[trigger] rows[j]).id) implies kept.contains(rows[j]) by {
        assert(f(rows[j]));
    }
}

/// A role carries only its own relations: to portable permissions for its codes, to any
/// department for its paths; and every such relation of the role is carried.
pub proof fn law_role_relations_are_the_roles_own(role_id: i64, relations: Seq<(i64, i64)>, portable: Set<i64>)
    ensures
        ({
            let perms = relations.filter(role_permission_filter(role_id, portable));
            let depts = relations.filter(role_department_filter(role_id));
            &&& forall|i: int| 0 <= i < perms.len() ==> (#[trigger] perms[i]).0 == role_id && portable.contains(perms[i].1)
            &&& forall|i: int| 0 <= i < depts.len() ==> (#[trigger] depts[i]).0 == role_id
            &&& forall|j: int|
                0 <= j < relations.len() && (#[trigger] relations[j]).0 == role_id ==> depts.contains(relations[j])
                    && (portable.contains(relations[j].1) ==> perms.contains(relations[j]))
        }),
{
    let f = role_permission_filter(role_id, portable);
    let g = role_department_filter(role_id);
    broadcast use vstd::seq_lib::group_filter_ensures;
    let perms = relations.filter(f);
    let depts = relations.filter(g);
    assert forall|i: int| 0 <= i < perms.len() implies (#[trigger] perms[i]).0 == role_id && portable.contains(perms[i].1) by {
        assert(f(perms[i]));
    }
    assert forall|i: int| 0 <= i < depts.len() implies (#[trigger] depts[i]).0 == role_id by {
        assert(g(depts[i]));
    }
    assert forall|j: int| 0 <= j < relations.len() && (#[trigger] relations[j]).0 == role_id implies depts.contains(
        relations[j],
    ) && (portable.contains(relations[j].1) ==> perms.contains(relations[j])) by {
        assert(g(relations[j]));
        if portable.contains(relations[j].1) {
            assert(f(relations[j]));
        }
    }
}

} // verus!

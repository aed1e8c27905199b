//! Package records and the shrinking of exported resources to what this build supports.
use vstd::prelude::*;

use crate::error::AppResult;
use crate::strset::{StrMap, StrSet};
use crate::text::{lower_seq, str_eq};
use crate::transfer::catalog::TenantConfigTargetCatalog;
use crate::transfer::keyclosure::{
    closure_of_keys, greatest_closed_key_subset, key_supported, keys_closed, lemma_closure_exists, lemma_closure_of_keys, prune_keys_to_closure, KeyLink,
};
use crate::transfer::keys::normalize_stable_key;

verus! {

/// A permission as carried by a configuration package.
pub struct PortablePermission {
    pub code: String,
    pub name: String,
    pub parent_code: Option<String>,
    pub permission_type: String,
    pub icon: Option<String>,
    pub sort: i32,
    pub status: String,
}

/// A menu as carried by a configuration package.
pub struct PortableMenu {
    pub stable_key: String,
    pub parent_stable_key: Option<String>,
    pub name: String,
    pub menu_type: String,
    pub permission_code: Option<String>,
    pub route_key: Option<String>,
    pub icon: Option<String>,
    pub sort: i32,
    pub visible: bool,
    pub status: String,
    pub remark: Option<String>,
}

/// A role as carried by a configuration package, with its permission codes and custom
/// department paths.
pub struct PortableRole {
    pub code: String,
    pub name: String,
    pub data_scope: String,
    pub status: String,
    pub sort: i32,
    pub remark: Option<String>,
    pub permission_codes: Vec<String>,
    pub custom_department_paths: Vec<Vec<String>>,
}

/// A department as carried by a configuration package, named by its path of names.
pub struct PortableDepartment {
    pub path: Vec<String>,
    pub sort: i32,
    pub status: String,
    pub remark: Option<String>,
}

/// A post as carried by a configuration package.
pub struct PortablePost {
    pub code: String,
    pub name: String,
    pub sort: i32,
    pub status: String,
    pub remark: Option<String>,
}

/// A dictionary type as carried by a configuration package.
pub struct PortableDictType {
    pub code: String,
    pub name: String,
    pub status: String,
    pub remark: Option<String>,
}

/// A dictionary entry as carried by a configuration package.
pub struct PortableDictData {
    pub type_code: String,
    pub value: String,
    pub label: String,
    pub sort: i32,
    pub status: String,
    pub css_class: Option<String>,
    pub remark: Option<String>,
}

/// A portable configuration value as carried by a configuration package.
pub struct PortableConfig {
    pub key: String,
    pub name: String,
    pub value: String,
    pub remark: Option<String>,
}

/// Everything a configuration package carries.
pub struct TenantConfigPackageResources {
    pub departments: Vec<PortableDepartment>,
    pub posts: Vec<PortablePost>,
    pub dict_types: Vec<PortableDictType>,
    pub dict_data: Vec<PortableDictData>,
    pub configs: Vec<PortableConfig>,
    pub permissions: Vec<PortablePermission>,
    pub menus: Vec<PortableMenu>,
    pub roles: Vec<PortableRole>,
}

/// The permission, menu and role parts of a package, which the catalog filter reshapes.
pub struct ExportableResources {
    pub permissions: Vec<PortablePermission>,
    pub menus: Vec<PortableMenu>,
    pub roles: Vec<PortableRole>,
}

/// An API permission must be registered under exactly its own spelling; any other permission
/// must not collide with a registered API permission.
pub open spec fn catalog_admits_permission(p: PortablePermission, api: StrMap<String>) -> bool {
    if p.permission_type@ == "api"@ {
        api.get_spec(lower_seq(p.code@)) matches Some(c) && c@ == p.code@
    } else {
        api.get_spec(lower_seq(p.code@)) is None
    }
}

pub open spec fn admitted_permission_codes(ps: Seq<PortablePermission>, api: StrMap<String>) -> Set<Seq<char>> {
    Set::new(|c: Seq<char>| exists|i: int| 0 <= i < ps.len() && #[trigger] ps[i].code@ == c && catalog_admits_permission(ps[i], api))
}

pub open spec fn permission_key_links(ps: Seq<PortablePermission>) -> Seq<KeyLink> {
    ps.map_values(|p: PortablePermission| KeyLink { key: p.code, parent: p.parent_code, parent_blocked: false })
}

/// The type of the last permission with the given code (later entries win).
pub open spec fn last_permission_type(ps: Seq<PortablePermission>, code: Seq<char>) -> Option<Seq<char>>
    decreases ps.len(),
{
    if ps.len() == 0 {
        None
    } else if ps.last().code@ == code {
        Some(ps.last().permission_type@)
    } else {
        last_permission_type(ps.drop_last(), code)
    }
}

/// The type of the last menu with the given stable key (later entries win).
pub open spec fn last_menu_type(ms: Seq<PortableMenu>, key: Seq<char>) -> Option<Seq<char>>
    decreases ms.len(),
{
    if ms.len() == 0 {
        None
    } else if ms.last().stable_key@ == key {
        Some(ms.last().menu_type@)
    } else {
        last_menu_type(ms.drop_last(), key)
    }
}

/// Whether a menu survives the catalog: its permission must survive; a directory or page needs
/// its route registered under exactly its spelling and type; an action must be bound to a
/// surviving API permission.
pub open spec fn catalog_admits_menu(
    m: PortableMenu,
    allowed: Set<Seq<char>>,
    routes: StrMap<(String, String)>,
    ps: Seq<PortablePermission>,
) -> bool {
    let permission_supported = match m.permission_code {
        None => true,
        Some(c) => allowed.contains(c@),
    };
    permission_supported && if m.menu_type@ == "M"@ || m.menu_type@ == "C"@ {
        match m.route_key {
            None => false,
            Some(rk) => routes.get_spec(lower_seq(rk@)) matches Some(e) && e.0@ == rk@ && e.1@ == m.menu_type@,
        }
    } else {
        m.menu_type@ == "F"@ && match m.permission_code {
            None => false,
            Some(c) => allowed.contains(c@) && last_permission_type(ps, c@) == Some("api"@),
        }
    }
}

pub open spec fn admitted_menu_keys(
    ms: Seq<PortableMenu>,
    allowed: Set<Seq<char>>,
    routes: StrMap<(String, String)>,
    ps: Seq<PortablePermission>,
) -> Set<Seq<char>> {
    Set::new(|k: Seq<char>| exists|i: int| 0 <= i < ms.len() && #[trigger] ms[i].stable_key@ == k && catalog_admits_menu(ms[i], allowed, routes, ps))
}

/// A menu whose parent is an action cannot stay: actions hold no children.
pub open spec fn menu_key_links(ms: Seq<PortableMenu>) -> Seq<KeyLink> {
    ms.map_values(|m: PortableMenu| KeyLink {
        key: m.stable_key,
        parent: m.parent_stable_key,
        parent_blocked: match m.parent_stable_key {
            None => false,
            Some(p) => last_menu_type(ms, p@) == Some("F"@),
        },
    })
}

fn admits_permission(p: &PortablePermission, api: &StrMap<String>) -> (r: bool)
    requires
        api.wf(),
    ensures
        r == catalog_admits_permission(*p, *api),
{
    let key = normalize_stable_key(p.code.as_str());
    if str_eq(p.permission_type.as_str(), "api") {
        match api.get(key.as_str()) {
            Some(c) => str_eq(c.as_str(), p.code.as_str()),
            None => false,
        }
    } else {
        api.get(key.as_str()).is_none()
    }
}

fn find_last_permission_type<'a>(ps: &'a [PortablePermission], code: &str) -> (r: Option<&'a String>)
    ensures
        match r {
            None => last_permission_type(ps@, code@) is None,
            Some(t) => last_permission_type(ps@, code@) == Some(t@),
        },
{
    let mut i: usize = ps.len();
    assert(ps@.take(ps.len() as int) =~= ps@);
    while i > 0
        invariant
            i <= ps.len(),
            last_permission_type(ps@, code@) == last_permission_type(ps@.take(i as int), code@),
        decreases i,
    {
        assert(ps@.take(i as int).drop_last() =~= ps@.take(i - 1 as int));
        if str_eq(ps[i - 1].code.as_str(), code) {
            return Some(&ps[i - 1].permission_type);
        }
        i = i - 1;
    }
    None
}

fn find_last_menu_type<'a>(ms: &'a [PortableMenu], key: &str) -> (r: Option<&'a String>)
    ensures
        match r {
            None => last_menu_type(ms@, key@) is None,
            Some(t) => last_menu_type(ms@, key@) == Some(t@),
        },
{
    let mut i: usize = ms.len();
    assert(ms@.take(ms.len() as int) =~= ms@);
    while i > 0
        invariant
            i <= ms.len(),
            last_menu_type(ms@, key@) == last_menu_type(ms@.take(i as int), key@),
        decreases i,
    {
        assert(ms@.take(i as int).drop_last() =~= ms@.take(i - 1 as int));
        if str_eq(ms[i - 1].stable_key.as_str(), key) {
            return Some(&ms[i - 1].menu_type);
        }
        i = i - 1;
    }
    None
}

fn admits_menu(
    m: &PortableMenu,
    allowed: &StrSet,
    routes: &StrMap<(String, String)>,
    ps: &[PortablePermission],
) -> (r: bool)
    requires
        allowed.wf(),
        routes.wf(),
    ensures
        r == catalog_admits_menu(*m, allowed.set(), *routes, ps@),
{
    let permission_supported = match &m.permission_code {
        None => true,
        Some(c) => allowed.contains(c.as_str()),
    };
    if !permission_supported {
        return false;
    }
    let t = m.menu_type.as_str();
    if str_eq(t, "M") || str_eq(t, "C") {
        match &m.route_key {
            None => false,
            Some(rk) => {
                let key = normalize_stable_key(rk.as_str());
                match routes.get(key.as_str()) {
                    None => false,
                    Some(e) => str_eq(e.0.as_str(), rk.as_str()) && str_eq(e.1.as_str(), t),
                }
            },
        }
    } else {
        str_eq(t, "F") && match &m.permission_code {
            None => false,
            Some(c) => allowed.contains(c.as_str()) && match find_last_permission_type(ps, c.as_str()) {
                None => false,
                Some(kind) => str_eq(kind.as_str(), "api"),
            },
        }
    }
}

pub proof fn lemma_filter_step<A>(s: Seq<A>, i: int, pred: spec_fn(A) -> bool)
    requires
        0 <= i < s.len(),
    ensures
        s.take(i + 1).filter(pred) == if pred(s[i]) {
            s.take(i).filter(pred).push(s[i])
        } else {
            s.take(i).filter(pred)
        },
{
    reveal(Seq::filter);
    assert(s.take(i + 1).drop_last() =~= s.take(i));
}

/// The permission codes that survive the catalog filter.
pub open spec fn exportable_permission_codes(ps: Seq<PortablePermission>, api: StrMap<String>) -> Set<Seq<char>> {
    closure_of_keys(permission_key_links(ps), admitted_permission_codes(ps, api))
}

/// The menu keys that survive the catalog filter.
pub open spec fn exportable_menu_keys(
    ms: Seq<PortableMenu>,
    ps: Seq<PortablePermission>,
    catalog: TenantConfigTargetCatalog,
) -> Set<Seq<char>> {
    closure_of_keys(
        menu_key_links(ms),
        admitted_menu_keys(ms, exportable_permission_codes(ps, catalog.api_permission_codes), catalog.page_routes, ps),
    )
}

pub open spec fn keeps_permission(allowed: Set<Seq<char>>) -> spec_fn(PortablePermission) -> bool {
    |p: PortablePermission| allowed.contains(p.code@)
}

pub open spec fn keeps_menu(allowed: Set<Seq<char>>) -> spec_fn(PortableMenu) -> bool {
    |m: PortableMenu| allowed.contains(m.stable_key@)
}

pub open spec fn keeps_code(allowed: Set<Seq<char>>) -> spec_fn(String) -> bool {
    |c: String| allowed.contains(c@)
}

/// `out` is `role` with its permission codes cut down to `allowed`.
pub open spec fn role_restricted(role: PortableRole, out: PortableRole, allowed: Set<Seq<char>>) -> bool {
    &&& out.code == role.code
    &&& out.name == role.name
    &&& out.data_scope == role.data_scope
    &&& out.status == role.status
    &&& out.sort == role.sort
    &&& out.remark == role.remark
    &&& out.custom_department_paths == role.custom_department_paths
    &&& out.permission_codes@ == role.permission_codes@.filter(keeps_code(allowed))
}

fn retain_permissions(v: Vec<PortablePermission>, allowed: &StrSet) -> (r: Vec<PortablePermission>)
    requires
        allowed.wf(),
    ensures
        r@ == v@.filter(keeps_permission(allowed.set())),
{
    let ghost pred = keeps_permission(allowed.set());
    let ghost input = v@;
    let mut out: Vec<PortablePermission> = Vec::new();
    for x in it: v.into_iter()
        invariant
            allowed.wf(),
            it.seq() == input,
            pred == keeps_permission(allowed.set()),
            out@ == input.take(it.index() as int).filter(pred),
    {
        proof {
            lemma_filter_step(input, it.index() as int, pred);
        }
        if allowed.contains(x.code.as_str()) {
            out.push(x);
        }
    }
    assert(input.take(input.len() as int) =~= input);
    out
}

fn retain_menus(v: Vec<PortableMenu>, allowed: &StrSet) -> (r: Vec<PortableMenu>)
    requires
        allowed.wf(),
    ensures
        r@ == v@.filter(keeps_menu(allowed.set())),
{
    let ghost pred = keeps_menu(allowed.set());
    let ghost input = v@;
    let mut out: Vec<PortableMenu> = Vec::new();
    for x in it: v.into_iter()
        invariant
            allowed.wf(),
            it.seq() == input,
            pred == keeps_menu(allowed.set()),
            out@ == input.take(it.index() as int).filter(pred),
    {
        proof {
            lemma_filter_step(input, it.index() as int, pred);
        }
        if allowed.contains(x.stable_key.as_str()) {
            out.push(x);
        }
    }
    assert(input.take(input.len() as int) =~= input);
    out
}

fn retain_codes(v: Vec<String>, allowed: &StrSet) -> (r: Vec<String>)
    requires
        allowed.wf(),
    ensures
        r@ == v@.filter(keeps_code(allowed.set())),
{
    let ghost pred = keeps_code(allowed.set());
    let ghost input = v@;
    let mut out: Vec<String> = Vec::new();
    for x in it: v.into_iter()
        invariant
            allowed.wf(),
            it.seq() == input,
            pred == keeps_code(allowed.set()),
            out@ == input.take(it.index() as int).filter(pred),
    {
        proof {
            lemma_filter_step(input, it.index() as int, pred);
        }
        if allowed.contains(x.as_str()) {
            out.push(x);
        }
    }
    assert(input.take(input.len() as int) =~= input);
    out
}

fn restrict_roles(v: Vec<PortableRole>, allowed: &StrSet) -> (r: Vec<PortableRole>)
    requires
        allowed.wf(),
    ensures
        r@.len() == v@.len(),
        forall|i: int| 0 <= i < v@.len() ==> role_restricted(#[trigger] v@[i], r@[i], allowed.set()),
{
    let ghost input = v@;
    let mut out: Vec<PortableRole> = Vec::new();
    for x in it: v.into_iter()
        invariant
            allowed.wf(),
            it.seq() == input,
            out@.len() == it.index(),
            forall|i: int| 0 <= i < it.index() ==> role_restricted(#[trigger] input[i], out@[i], allowed.set()),
    {
        let PortableRole { code, name, data_scope, status, sort, remark, permission_codes, custom_department_paths } = x;
        let permission_codes = retain_codes(permission_codes, allowed);
        out.push(PortableRole { code, name, data_scope, status, sort, remark, permission_codes, custom_department_paths });
    }
    out
}

fn clone_opt(s: &Option<String>) -> (r: Option<String>)
    ensures
        r == *s,
{
    match s {
        Some(v) => Some(v.clone()),
        None => None,
    }
}

fn permission_links_of(ps: &[PortablePermission]) -> (r: Vec<KeyLink>)
    ensures
        r@ == permission_key_links(ps@),
{
    let mut r: Vec<KeyLink> = Vec::new();
    let mut i: usize = 0;
    while i < ps.len()
        invariant
            i <= ps.len(),
            r@ == permission_key_links(ps@.take(i as int)),
        decreases ps.len() - i,
    {
        let l = KeyLink { key: ps[i].code.clone(), parent: clone_opt(&ps[i].parent_code), parent_blocked: false };
        r.push(l);
        assert(permission_key_links(ps@.take(i + 1 as int)) =~= permission_key_links(ps@.take(i as int)).push(l));
        i = i + 1;
    }
    assert(ps@.take(ps.len() as int) =~= ps@);
    r
}

fn menu_links_of(ms: &[PortableMenu]) -> (r: Vec<KeyLink>)
    ensures
        r@ == menu_key_links(ms@),
{
    let mut r: Vec<KeyLink> = Vec::new();
    let mut i: usize = 0;
    while i < ms.len()
        invariant
            i <= ms.len(),
            r@.len() == i,
            forall|k: int| 0 <= k < i ==> #[trigger] r@[k] == menu_key_links(ms@)[k],
        decreases ms.len() - i,
    {
        let blocked = match &ms[i].parent_stable_key {
            None => false,
            Some(p) => match find_last_menu_type(ms, p.as_str()) {
                None => false,
                Some(t) => str_eq(t.as_str(), "F"),
            },
        };
        let l = KeyLink { key: ms[i].stable_key.clone(), parent: clone_opt(&ms[i].parent_stable_key), parent_blocked: blocked };
        r.push(l);
        i = i + 1;
    }
    assert(r@ =~= menu_key_links(ms@));
    r
}

/// `out` is what this build exports of `resources`: the permissions it can carry (with their
/// ancestors), the menus it can carry, and every role with its permission codes cut down to the
/// permissions kept.
pub open spec fn export_filtered(resources: ExportableResources, catalog: TenantConfigTargetCatalog, out: ExportableResources) -> bool {
    let ps = resources.permissions@;
    let ms = resources.menus@;
    let allowed = exportable_permission_codes(ps, catalog.api_permission_codes);
    &&& out.permissions@ == ps.filter(keeps_permission(allowed))
    &&& out.menus@ == ms.filter(keeps_menu(exportable_menu_keys(ms, ps, catalog)))
    &&& out.roles@.len() == resources.roles@.len()
    &&& forall|i: int| 0 <= i < resources.roles@.len() ==> role_restricted(#[trigger] resources.roles@[i], out.roles@[i], allowed)
}

/// Shrinks exported permissions, menus and role grants to what this build's catalog supports.
///
/// Permissions: an API permission must be registered under exactly its own spelling, any
/// other permission must not collide with a registered API code; then permissions whose
/// parent was dropped are dropped, until none is left. Menus: see `catalog_admits_menu`, then
/// the same pruning, where an action parent also drops its children. Roles keep only grants
/// of surviving permissions. Relative order is kept throughout.
pub fn filter_exportable_resources(
    resources: ExportableResources,
    catalog: &TenantConfigTargetCatalog,
) -> (r: AppResult<ExportableResources>)
    requires
        catalog.wf(),
    ensures
        r is Ok,
        r matches Ok(out) ==> export_filtered(resources, *catalog, out),
{
    let ghost ps = resources.permissions@;
    let ghost ms = resources.menus@;
    let ExportableResources { permissions, menus, roles } = resources;
    let mut initial = StrSet::new();
    let mut i: usize = 0;
    while i < permissions.len()
        invariant
            catalog.wf(),
            permissions@ == ps,
            i <= permissions.len(),
            initial.wf(),
            initial.set() == Set::new(|c: Seq<char>| exists|k: int| 0 <= k < i && #[trigger] ps[k].code@ == c && catalog_admits_permission(ps[k], catalog.api_permission_codes)),
        decreases permissions.len() - i,
    {
        let ghost before = initial.set();
        if admits_permission(&permissions[i], &catalog.api_permission_codes) {
            initial.insert(permissions[i].code.clone());
        }
        proof {
            assert(initial.set() =~= Set::new(|c: Seq<char>| exists|k: int| 0 <= k < i + 1 && #[trigger] ps[k].code@ == c && catalog_admits_permission(ps[k], catalog.api_permission_codes))) by {
                assert forall|c: Seq<char>| #[trigger] initial.set().contains(c) implies exists|k: int| 0 <= k < i + 1 && #[trigger] ps[k].code@ == c && catalog_admits_permission(ps[k], catalog.api_permission_codes) by {
                    if !before.contains(c) {
                        assert(ps[i as int].code@ == c);
                    }
                }
            }
        }
        i = i + 1;
    }
    assert(initial.set() =~= admitted_permission_codes(ps, catalog.api_permission_codes));
    let plinks = permission_links_of(permissions.as_slice());
    let allowed = prune_keys_to_closure(plinks.as_slice(), initial);
    proof {
        lemma_closure_of_keys(permission_key_links(ps), admitted_permission_codes(ps, catalog.api_permission_codes), allowed.set());
    }
    let mut minitial = StrSet::new();
    let mut j: usize = 0;
    while j < menus.len()
        invariant
            catalog.wf(),
            permissions@ == ps,
            menus@ == ms,
            allowed.wf(),
            j <= menus.len(),
            minitial.wf(),
            minitial.set() == Set::new(|k: Seq<char>| exists|m: int| 0 <= m < j && #[trigger] ms[m].stable_key@ == k && catalog_admits_menu(ms[m], allowed.set(), catalog.page_routes, ps)),
        decreases menus.len() - j,
    {
        let ghost before = minitial.set();
        if admits_menu(&menus[j], &allowed, &catalog.page_routes, permissions.as_slice()) {
            minitial.insert(menus[j].stable_key.clone());
        }
        proof {
            assert(minitial.set() =~= Set::new(|k: Seq<char>| exists|m: int| 0 <= m < j + 1 && #[trigger] ms[m].stable_key@ == k && catalog_admits_menu(ms[m], allowed.set(), catalog.page_routes, ps))) by {
                assert forall|k: Seq<char>| #[trigger] minitial.set().contains(k) implies exists|m: int| 0 <= m < j + 1 && #[trigger] ms[m].stable_key@ == k && catalog_admits_menu(ms[m], allowed.set(), catalog.page_routes, ps) by {
                    if !before.contains(k) {
                        assert(ms[j as int].stable_key@ == k);
                    }
                }
            }
        }
        j = j + 1;
    }
    assert(minitial.set() =~= admitted_menu_keys(ms, allowed.set(), catalog.page_routes, ps));
    let mlinks = menu_links_of(menus.as_slice());
    let mallowed = prune_keys_to_closure(mlinks.as_slice(), minitial);
    proof {
        lemma_closure_of_keys(menu_key_links(ms), admitted_menu_keys(ms, allowed.set(), catalog.page_routes, ps), mallowed.set());
    }
    let out_permissions = retain_permissions(permissions, &allowed);
    let out_menus = retain_menus(menus, &mallowed);
    let out_roles = restrict_roles(roles, &allowed);
    Ok(ExportableResources { permissions: out_permissions, menus: out_menus, roles: out_roles })
}


/// Filtering keeps a sequence whose every element passes.
pub proof fn lemma_filter_keeps_all<A>(s: Seq<A>, pred: spec_fn(A) -> bool)
    requires
        forall|i: int| 0 <= i < s.len() ==> pred(#[trigger] s[i]),
    ensures
        s.filter(pred) == s,
    decreases s.len(),
{
    reveal(Seq::filter);
    if s.len() > 0 {
        lemma_filter_keeps_all(s.drop_last(), pred);
        assert(s.drop_last().push(s.last()) =~= s);
    } else {
        assert(s.filter(pred) =~= s);
    }
}

/// Exporting is stable: exporting the permissions an export kept keeps all of them, under the
/// same codes (a version's own package passes its own catalog filter unchanged).
pub proof fn law_exported_permissions_are_stable(ps: Seq<PortablePermission>, api: StrMap<String>)
    ensures
        ({
            let allowed = exportable_permission_codes(ps, api);
            let kept = ps.filter(keeps_permission(allowed));
            &&& exportable_permission_codes(kept, api) == allowed
            &&& kept.filter(keeps_permission(exportable_permission_codes(kept, api))) == kept
        }),
{
    let admitted = admitted_permission_codes(ps, api);
    let links = permission_key_links(ps);
    lemma_closure_exists(links, admitted);
    let allowed = closure_of_keys(links, admitted);
    let f = keeps_permission(allowed);
    let kept = ps.filter(f);
    ps.filter_lemma(f);
    assert forall|j: int| 0 <= j < kept.len() implies ps.contains(#[trigger] kept[j]) by {
        ps.lemma_filter_contains_rev(f, kept[j]);
    }
    let admitted2 = admitted_permission_codes(kept, api);
    assert(admitted2 =~= allowed) by {
        assert forall|c: Seq<char>| admitted2.contains(c) implies allowed.contains(c) by {
            let j = choose|j: int| 0 <= j < kept.len() && #[trigger] kept[j].code@ == c && catalog_admits_permission(kept[j], api);
            assert(f(kept[j]));
        }
        assert forall|c: Seq<char>| allowed.contains(c) implies admitted2.contains(c) by {
            assert(admitted.contains(c));
            let i = choose|i: int| 0 <= i < ps.len() && #[trigger] ps[i].code@ == c && catalog_admits_permission(ps[i], api);
            assert(f(ps[i]));
            assert(kept.contains(ps[i]));
            let j = choose|j: int| 0 <= j < kept.len() && kept[j] == ps[i];
            assert(kept[j].code@ == c);
        }
    }
    let links2 = permission_key_links(kept);
    assert(keys_closed(links2, allowed)) by {
        assert forall|j: int| 0 <= j < links2.len() && allowed.contains(#[trigger] links2[j].key@) implies key_supported(links2[j], allowed) by {
            let i = choose|i: int| 0 <= i < ps.len() && ps[i] == kept[j];
            assert(links[i] == links2[j]);
            assert(allowed.contains(links[i].key@));
        }
    }
    assert(greatest_closed_key_subset(links2, admitted2, allowed));
    lemma_closure_of_keys(links2, admitted2, allowed);
    assert forall|j: int| 0 <= j < kept.len() implies f(#[trigger] kept[j]) by {}
    lemma_filter_keeps_all(kept, f);
}


proof fn lemma_last_permission_type_kept(ps: Seq<PortablePermission>, allowed: Set<Seq<char>>, c: Seq<char>)
    requires
        allowed.contains(c),
    ensures
        last_permission_type(ps.filter(keeps_permission(allowed)), c) == last_permission_type(ps, c),
    decreases ps.len(),
{
    reveal(Seq::filter);
    if ps.len() > 0 {
        lemma_last_permission_type_kept(ps.drop_last(), allowed, c);
        let f = keeps_permission(allowed);
        if f(ps.last()) {
            assert(ps.filter(f) == ps.drop_last().filter(f).push(ps.last()));
            assert(ps.filter(f).drop_last() =~= ps.drop_last().filter(f));
        }
    }
}

proof fn lemma_last_menu_type_kept(ms: Seq<PortableMenu>, allowed: Set<Seq<char>>, k: Seq<char>)
    requires
        allowed.contains(k),
    ensures
        last_menu_type(ms.filter(keeps_menu(allowed)), k) == last_menu_type(ms, k),
    decreases ms.len(),
{
    reveal(Seq::filter);
    if ms.len() > 0 {
        lemma_last_menu_type_kept(ms.drop_last(), allowed, k);
        let f = keeps_menu(allowed);
        if f(ms.last()) {
            assert(ms.filter(f) == ms.drop_last().filter(f).push(ms.last()));
            assert(ms.filter(f).drop_last() =~= ms.drop_last().filter(f));
        }
    }
}

/// Exporting is stable for menus too: exporting the menus and permissions an export kept keeps
/// every menu.
pub proof fn law_exported_menus_are_stable(ms: Seq<PortableMenu>, ps: Seq<PortablePermission>, catalog: TenantConfigTargetCatalog)
    ensures
        ({
            let allowed_p = exportable_permission_codes(ps, catalog.api_permission_codes);
            let allowed_m = exportable_menu_keys(ms, ps, catalog);
            let kept_p = ps.filter(keeps_permission(allowed_p));
            let kept_m = ms.filter(keeps_menu(allowed_m));
            &&& exportable_menu_keys(kept_m, kept_p, catalog) == allowed_m
            &&& kept_m.filter(keeps_menu(exportable_menu_keys(kept_m, kept_p, catalog))) == kept_m
        }),
{
    let api = catalog.api_permission_codes;
    let routes = catalog.page_routes;
    law_exported_permissions_are_stable(ps, api);
    let allowed_p = exportable_permission_codes(ps, api);
    let kept_p = ps.filter(keeps_permission(allowed_p));
    assert(exportable_permission_codes(kept_p, api) == allowed_p);
    let admitted = admitted_menu_keys(ms, allowed_p, routes, ps);
    let links = menu_key_links(ms);
    lemma_closure_exists(links, admitted);
    let allowed_m = closure_of_keys(links, admitted);
    assert(allowed_m == exportable_menu_keys(ms, ps, catalog));
    let f = keeps_menu(allowed_m);
    let kept_m = ms.filter(f);
    ms.filter_lemma(f);
    assert forall|j: int| 0 <= j < kept_m.len() implies ms.contains(#[trigger] kept_m[j]) by {
        ms.lemma_filter_contains_rev(f, kept_m[j]);
    }
    // A kept menu is admitted against the kept permissions exactly as against all of them.
    assert forall|m: PortableMenu| allowed_m.contains(m.stable_key@) implies catalog_admits_menu(m, allowed_p, routes, kept_p)
        == catalog_admits_menu(m, allowed_p, routes, ps) by {
        match m.permission_code {
            Some(c) => {
                if allowed_p.contains(c@) {
                    lemma_last_permission_type_kept(ps, allowed_p, c@);
                }
            },
            None => {},
        }
    }
    let admitted2 = admitted_menu_keys(kept_m, allowed_p, routes, kept_p);
    assert(admitted2 =~= allowed_m) by {
        assert forall|k: Seq<char>| admitted2.contains(k) implies allowed_m.contains(k) by {
            let j = choose|j: int| 0 <= j < kept_m.len() && #[trigger] kept_m[j].stable_key@ == k && catalog_admits_menu(kept_m[j], allowed_p, routes, kept_p);
            assert(f(kept_m[j]));
        }
        assert forall|k: Seq<char>| allowed_m.contains(k) implies admitted2.contains(k) by {
            assert(admitted.contains(k));
            let i = choose|i: int| 0 <= i < ms.len() && #[trigger] ms[i].stable_key@ == k && catalog_admits_menu(ms[i], allowed_p, routes, ps);
            assert(f(ms[i]));
            assert(kept_m.contains(ms[i]));
            let j = choose|j: int| 0 <= j < kept_m.len() && kept_m[j] == ms[i];
            assert(kept_m[j].stable_key@ == k);
            assert(catalog_admits_menu(kept_m[j], allowed_p, routes, kept_p));
        }
    }
    let links2 = menu_key_links(kept_m);
    assert(keys_closed(links2, allowed_m)) by {
        assert forall|j: int| 0 <= j < links2.len() && allowed_m.contains(#[trigger] links2[j].key@) implies key_supported(links2[j], allowed_m) by {
            let i = choose|i: int| 0 <= i < ms.len() && ms[i] == kept_m[j];
            assert(links[i].key == links2[j].key);
            assert(allowed_m.contains(links[i].key@));
            assert(key_supported(links[i], allowed_m));
            match kept_m[j].parent_stable_key {
                Some(p) => {
                    assert(allowed_m.contains(p@));
                    lemma_last_menu_type_kept(ms, allowed_m, p@);
                },
                None => {},
            }
        }
    }
    assert(greatest_closed_key_subset(links2, admitted2, allowed_m));
    lemma_closure_of_keys(links2, admitted2, allowed_m);
    assert forall|j: int| 0 <= j < kept_m.len() implies f(#[trigger] kept_m[j]) by {}
    lemma_filter_keeps_all(kept_m, f);
}

/// What this build exports is exported unchanged by it again: filtering a filtered package
/// keeps every permission, menu and role as it is.
pub proof fn law_export_filter_is_stable(
    resources: ExportableResources,
    catalog: TenantConfigTargetCatalog,
    out: ExportableResources,
    again: ExportableResources,
)
    requires
        export_filtered(resources, catalog, out),
        export_filtered(out, catalog, again),
    ensures
        again.permissions@ == out.permissions@,
        again.menus@ == out.menus@,
        again.roles@.len() == out.roles@.len(),
        forall|i: int| 0 <= i < out.roles@.len() ==> {
            &&& (#[trigger] again.roles@[i]).code == out.roles@[i].code
            &&& again.roles@[i].name == out.roles@[i].name
            &&& again.roles@[i].data_scope == out.roles@[i].data_scope
            &&& again.roles@[i].status == out.roles@[i].status
            &&& again.roles@[i].sort == out.roles@[i].sort
            &&& again.roles@[i].remark == out.roles@[i].remark
            &&& again.roles@[i].custom_department_paths == out.roles@[i].custom_department_paths
            &&& again.roles@[i].permission_codes@ == out.roles@[i].permission_codes@
        },
{
    let ps = resources.permissions@;
    let ms = resources.menus@;
    let api = catalog.api_permission_codes;
    let allowed = exportable_permission_codes(ps, api);
    law_exported_permissions_are_stable(ps, api);
    law_exported_menus_are_stable(ms, ps, catalog);
    assert(exportable_permission_codes(out.permissions@, api) == allowed);
    assert forall|i: int| 0 <= i < out.roles@.len() implies (#[trigger] again.roles@[i]).permission_codes@
        == out.roles@[i].permission_codes@ by {
        let f = keeps_code(allowed);
        let codes = resources.roles@[i].permission_codes@;
        assert(role_restricted(resources.roles@[i], out.roles@[i], allowed));
        assert(role_restricted(out.roles@[i], again.roles@[i], allowed));
        codes.filter_lemma(f);
        let kept = codes.filter(f);
        assert forall|j: int| 0 <= j < kept.len() implies f(#[trigger] kept[j]) by {}
        lemma_filter_keeps_all(kept, f);
    }
    assert forall|i: int| 0 <= i < out.roles@.len() implies (#[trigger] again.roles@[i]).code == out.roles@[i].code by {
        assert(role_restricted(out.roles@[i], again.roles@[i], allowed));
    }
}

} // verus!

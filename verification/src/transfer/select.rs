//! Which stored permissions and menus a tenant can carry into a configuration package.
use vstd::prelude::*;

use crate::idset::IdSet;
use crate::text::str_eq;
use crate::transfer::closure::{closed, greatest_closed_subset, prune_to_closure, supported, ParentLink};
use crate::transfer::keys::{
    is_platform_only_permission, permission_contains_wildcard, spec_is_platform_only_permission,
    spec_permission_contains_wildcard,
};
use crate::transfer::paths::MenuRecord;

verus! {

/// A stored permission: its id, its parent and its code.
#[derive(Debug)]
pub struct PermissionRecord {
    pub id: i64,
    pub parent_id: Option<i64>,
    pub code: String,
}

/// A code may leave its tenant unless it is a wildcard or reserved to the platform.
pub open spec fn portable_code(code: Seq<char>) -> bool {
    !spec_permission_contains_wildcard(code) && !spec_is_platform_only_permission(code)
}

pub open spec fn permission_links(ps: Seq<PermissionRecord>) -> Seq<ParentLink> {
    ps.map_values(|p: PermissionRecord| ParentLink { id: p.id, parent_id: p.parent_id })
}

pub open spec fn menu_links(ms: Seq<MenuRecord>) -> Seq<ParentLink> {
    ms.map_values(|m: MenuRecord| ParentLink { id: m.id, parent_id: m.parent_id })
}

/// Ids of the permissions whose own code is portable.
pub open spec fn portable_permission_candidates(ps: Seq<PermissionRecord>) -> Set<i64> {
    Set::new(|id: i64| exists|i: int| 0 <= i < ps.len() && #[trigger] ps[i].id == id && portable_code(ps[i].code@))
}

/// A directory may travel when it is bound to no permission or to a portable one; a page or
/// an action needs a portable permission; any other type stays.
pub open spec fn menu_candidate(m: MenuRecord, perms: Set<i64>) -> bool {
    if m.menu_type@ == "M"@ {
        match m.perm_id {
            None => true,
            Some(p) => perms.contains(p),
        }
    } else if m.menu_type@ == "C"@ || m.menu_type@ == "F"@ {
        match m.perm_id {
            None => false,
            Some(p) => perms.contains(p),
        }
    } else {
        false
    }
}

pub open spec fn portable_menu_candidates(ms: Seq<MenuRecord>, perms: Set<i64>) -> Set<i64> {
    Set::new(|id: i64| exists|i: int| 0 <= i < ms.len() && #[trigger] ms[i].id == id && menu_candidate(ms[i], perms))
}

fn links_of_permissions(ps: &[PermissionRecord]) -> (r: Vec<ParentLink>)
    ensures
        r@ == permission_links(ps@),
{
    let mut r: Vec<ParentLink> = Vec::new();
    let mut i: usize = 0;
    while i < ps.len()
        invariant
            i <= ps.len(),
            r@ == permission_links(ps@.take(i as int)),
        decreases ps.len() - i,
    {
        r.push(ParentLink { id: ps[i].id, parent_id: ps[i].parent_id });
        assert(permission_links(ps@.take(i + 1 as int)) =~= permission_links(ps@.take(i as int)).push(
            ParentLink { id: ps@[i as int].id, parent_id: ps@[i as int].parent_id },
        ));
        i = i + 1;
    }
    assert(ps@.take(ps.len() as int) =~= ps@);
    r
}

fn links_of_menus(ms: &[MenuRecord]) -> (r: Vec<ParentLink>)
    ensures
        r@ == menu_links(ms@),
{
    let mut r: Vec<ParentLink> = Vec::new();
    let mut i: usize = 0;
    while i < ms.len()
        invariant
            i <= ms.len(),
            r@ == menu_links(ms@.take(i as int)),
        decreases ms.len() - i,
    {
        r.push(ParentLink { id: ms[i].id, parent_id: ms[i].parent_id });
        assert(menu_links(ms@.take(i + 1 as int)) =~= menu_links(ms@.take(i as int)).push(
            ParentLink { id: ms@[i as int].id, parent_id: ms@[i as int].parent_id },
        ));
        i = i + 1;
    }
    assert(ms@.take(ms.len() as int) =~= ms@);
    r
}

/// The permissions a tenant can export: the largest set of permissions with portable codes in
/// which every selected permission's parent is selected too.
pub fn portable_permission_ids(ps: &[PermissionRecord]) -> (r: IdSet)
    ensures
        r.wf(),
        greatest_closed_subset(permission_links(ps@), portable_permission_candidates(ps@), r.set()),
{
    let mut initial = IdSet::new();
    let mut i: usize = 0;
    while i < ps.len()
        invariant
            i <= ps.len(),
            initial.wf(),
            initial.set() == Set::new(|id: i64| exists|k: int| 0 <= k < i && #[trigger] ps@[k].id == id && portable_code(ps@[k].code@)),
        decreases ps.len() - i,
    {
        let ghost before = initial.set();
        let code = ps[i].code.as_str();
        if !permission_contains_wildcard(code) && !is_platform_only_permission(code) {
            initial.insert(ps[i].id);
        }
        proof {
            assert(initial.set() =~= Set::new(|id: i64| exists|k: int| 0 <= k < i + 1 && #[trigger] ps@[k].id == id && portable_code(ps@[k].code@))) by {
                assert forall|id: i64| #[trigger] initial.set().contains(id) implies exists|k: int| 0 <= k < i + 1 && #[trigger] ps@[k].id == id && portable_code(ps@[k].code@) by {
                    if !before.contains(id) {
                        assert(ps@[i as int].id == id);
                    }
                }
            }
        }
        i = i + 1;
    }
    assert(initial.set() =~= portable_permission_candidates(ps@));
    let links = links_of_permissions(ps);
    prune_to_closure(links.as_slice(), initial)
}

fn is_menu_candidate(m: &MenuRecord, perms: &IdSet) -> (r: bool)
    requires
        perms.wf(),
    ensures
        r == menu_candidate(*m, perms.set()),
{
    let t = m.menu_type.as_str();
    if str_eq(t, "M") {
        match m.perm_id {
            None => true,
            Some(p) => perms.contains(p),
        }
    } else if str_eq(t, "C") || str_eq(t, "F") {
        match m.perm_id {
            None => false,
            Some(p) => perms.contains(p),
        }
    } else {
        false
    }
}

/// The menus a tenant can export: the largest set of candidate menus (by type and bound
/// permission, see `menu_candidate`) in which every selected menu's parent is selected too.
pub fn portable_menu_ids(ms: &[MenuRecord], perms: &IdSet) -> (r: IdSet)
    requires
        perms.wf(),
    ensures
        r.wf(),
        greatest_closed_subset(menu_links(ms@), portable_menu_candidates(ms@, perms.set()), r.set()),
{
    let mut initial = IdSet::new();
    let mut i: usize = 0;
    while i < ms.len()
        invariant
            i <= ms.len(),
            perms.wf(),
            initial.wf(),
            initial.set() == Set::new(|id: i64| exists|k: int| 0 <= k < i && #[trigger] ms@[k].id == id && menu_candidate(ms@[k], perms.set())),
        decreases ms.len() - i,
    {
        let ghost before = initial.set();
        if is_menu_candidate(&ms[i], perms) {
            initial.insert(ms[i].id);
        }
        proof {
            assert(initial.set() =~= Set::new(|id: i64| exists|k: int| 0 <= k < i + 1 && #[trigger] ms@[k].id == id && menu_candidate(ms@[k], perms.set()))) by {
                assert forall|id: i64| #[trigger] initial.set().contains(id) implies exists|k: int| 0 <= k < i + 1 && #[trigger] ms@[k].id == id && menu_candidate(ms@[k], perms.set()) by {
                    if !before.contains(id) {
                        assert(ms@[i as int].id == id);
                    }
                }
            }
        }
        i = i + 1;
    }
    assert(initial.set() =~= portable_menu_candidates(ms@, perms.set()));
    let links = links_of_menus(ms);
    prune_to_closure(links.as_slice(), initial)
}

/// No exported permission has a wildcard segment or a code reserved to the platform; a
/// permission with a portable code and no parent is always exported (ids being distinct).
pub proof fn law_exported_permissions_are_portable(ps: Seq<PermissionRecord>, r: Set<i64>, i: int)
    requires
        greatest_closed_subset(permission_links(ps), portable_permission_candidates(ps), r),
        0 <= i < ps.len(),
        forall|j: int, k: int| 0 <= j < k < ps.len() ==> (#[trigger] ps[j]).id != (#[trigger] ps[k]).id,
    ensures
        spec_permission_contains_wildcard(ps[i].code@) || spec_is_platform_only_permission(ps[i].code@) ==> !r.contains(
            ps[i].id,
        ),
        !spec_permission_contains_wildcard(ps[i].code@) && !spec_is_platform_only_permission(ps[i].code@)
            && ps[i].parent_id is None ==> r.contains(ps[i].id),
{
    let links = permission_links(ps);
    let id = ps[i].id;
    if r.contains(id) {
        assert(portable_permission_candidates(ps).contains(id));
        let k = choose|k: int| 0 <= k < ps.len() && #[trigger] ps[k].id == id && portable_code(ps[k].code@);
        if k != i {
            if k < i {
                assert(ps[k].id != ps[i].id);
            } else {
                assert(ps[i].id != ps[k].id);
            }
        }
    }
    if portable_code(ps[i].code@) && ps[i].parent_id is None {
        let single = set![id];
        assert(portable_permission_candidates(ps).contains(id)) by {
            assert(ps[i].id == id);
        }
        assert forall|j: int| 0 <= j < links.len() && single.contains(#[trigger] links[j].id) implies supported(
            links[j],
            single,
        ) by {
            if j != i {
                if j < i {
                    assert(ps[j].id != ps[i].id);
                } else {
                    assert(ps[i].id != ps[j].id);
                }
            }
        }
        assert(closed(links, single));
        assert(single.subset_of(portable_permission_candidates(ps)));
        assert(single.subset_of(r));
    }
}

/// No exported menu is of a type other than directory (`M`), page (`C`) or action (`F`), a
/// page or action without a permission, or one bound to a permission that is not exported; a
/// directory with no parent and no permission is always exported (ids being distinct).
pub proof fn law_exported_menus_are_portable(ms: Seq<MenuRecord>, perms: Set<i64>, r: Set<i64>, i: int)
    requires
        greatest_closed_subset(menu_links(ms), portable_menu_candidates(ms, perms), r),
        0 <= i < ms.len(),
        forall|j: int, k: int| 0 <= j < k < ms.len() ==> (#[trigger] ms[j]).id != (#[trigger] ms[k]).id,
    ensures
        (ms[i].menu_type@ != "M"@ && ms[i].menu_type@ != "C"@ && ms[i].menu_type@ != "F"@) || ((ms[i].menu_type@ == "C"@
            || ms[i].menu_type@ == "F"@) && ms[i].perm_id is None) || (ms[i].perm_id matches Some(p) && !perms.contains(p))
            ==> !r.contains(ms[i].id),
        ms[i].menu_type@ == "M"@ && ms[i].perm_id is None && ms[i].parent_id is None ==> r.contains(ms[i].id),
{
    let links = menu_links(ms);
    let id = ms[i].id;
    reveal_strlit("M");
    reveal_strlit("C");
    reveal_strlit("F");
    if r.contains(id) {
        assert(portable_menu_candidates(ms, perms).contains(id));
        let k = choose|k: int| 0 <= k < ms.len() && #[trigger] ms[k].id == id && menu_candidate(ms[k], perms);
        if k != i {
            if k < i {
                assert(ms[k].id != ms[i].id);
            } else {
                assert(ms[i].id != ms[k].id);
            }
        }
        assert(menu_candidate(ms[i], perms));
        assert("M"@[0] != "C"@[0] && "M"@[0] != "F"@[0] && "C"@[0] != "F"@[0]);
    }
    if ms[i].menu_type@ == "M"@ && ms[i].perm_id is None && ms[i].parent_id is None {
        let single = set![id];
        assert(portable_menu_candidates(ms, perms).contains(id)) by {
            assert(ms[i].id == id && menu_candidate(ms[i], perms));
        }
        assert forall|j: int| 0 <= j < links.len() && single.contains(#[trigger] links[j].id) implies supported(
            links[j],
            single,
        ) by {
            if j != i {
                if j < i {
                    assert(ms[j].id != ms[i].id);
                } else {
                    assert(ms[i].id != ms[j].id);
                }
            }
        }
        assert(closed(links, single));
        assert(single.subset_of(portable_menu_candidates(ms, perms)));
        assert(single.subset_of(r));
    }
}

} // verus!

//! Permissions: their kinds and the registration of route permissions missing from a tenant.
use vstd::prelude::*;

use crate::strset::{views, StrSet};
use crate::text::{chars_of, owned, string_from_range};

use crate::text::{id_text, opt_id, opt_id_text, opt_string_view, signed_decimal};
verus! {

/// What a permission guards.
#[derive(Debug, Clone, Copy, PartialEq, Eq, Structural)]
pub enum PermissionType {
    Api,
    Menu,
}

impl PermissionType {
    /// `api` or `menu`.
    pub fn as_str(self) -> (r: &'static str)
        ensures
            r@ == if self is Api {
                "api"@
            } else {
                "menu"@
            },
    {
        match self {
            PermissionType::Api => "api",
            PermissionType::Menu => "menu",
        }
    }
}

/// A permission in the tree view.
pub struct PermissionTreeNode {
    pub id: String,
    pub name: String,
    pub code: String,
    pub parent_id: Option<String>,
    pub perm_type: String,
    pub icon: Option<String>,
    pub sort: i32,
    pub status: String,
    pub children: Vec<PermissionTreeNode>,
}

/// A permission to create.
pub struct CreatePermissionCommand {
    pub name: String,
    pub code: String,
    pub parent_id: Option<i64>,
    pub perm_type: PermissionType,
    pub icon: Option<String>,
    pub sort: i32,
    pub status: String,
}

/// New values of a permission.
pub struct UpdatePermissionCommand {
    pub id: i64,
    pub name: String,
    pub code: String,
    pub parent_id: Option<i64>,
    pub perm_type: PermissionType,
    pub icon: Option<String>,
    pub sort: i32,
    pub status: String,
}

/// The outcome of registering route permissions.
pub struct PermissionSyncReport {
    pub scanned: usize,
    pub existing: usize,
    pub created: usize,
    pub missing: Vec<String>,
}

/// A permission registered for a route that had none.
pub struct NewRoutePermission {
    pub name: String,
    pub code: String,
    pub perm_type: String,
    pub sort: i32,
    pub status: String,
}

/// The part of a code after its last `:` (the whole code when it has none).
pub open spec fn last_segment(code: Seq<char>) -> Seq<char>
    decreases code.len(),
{
    if code.len() == 0 {
        code
    } else if code.last() == ':' {
        Seq::empty()
    } else {
        last_segment(code.drop_last()).push(code.last())
    }
}

/// The name given to a registered route permission: its code's last segment.
pub fn route_permission_name(code: &str) -> (r: String)
    ensures
        r@ == last_segment(code@),
{
    let v = chars_of(code);
    let mut start: usize = v.len();
    assert(v@.take(v.len() as int) =~= v@);
    assert(v@.subrange(v.len() as int, v.len() as int) =~= Seq::<char>::empty());
    assert(last_segment(v@) + Seq::<char>::empty() =~= last_segment(v@));
    while start > 0 && v[start - 1] != ':'
        invariant
            v@ == code@,
            start <= v.len(),
            forall|j: int| start <= j < v.len() ==> v@[j] != ':',
            last_segment(v@) == last_segment(v@.take(start as int)) + v@.subrange(start as int, v.len() as int),
        decreases start,
    {
        proof {
            let t = v@.take(start as int);
            assert(t.drop_last() =~= v@.take(start - 1));
            assert(last_segment(t) == last_segment(t.drop_last()).push(t.last()));
            assert(last_segment(v@.take(start - 1)).push(v@[start - 1]) + v@.subrange(start as int, v.len() as int)
                =~= last_segment(v@.take(start - 1)) + v@.subrange(start - 1, v.len() as int));
        }
        start = start - 1;
    }
    proof {
        let t = v@.take(start as int);
        if start > 0 {
            assert(t.last() == ':');
            assert(last_segment(t) == Seq::<char>::empty());
        } else {
            assert(t.len() == 0);
        }
        assert(last_segment(v@.take(start as int)) + v@.subrange(start as int, v.len() as int) =~= v@.subrange(start as int, v.len() as int));
    }
    string_from_range(v.as_slice(), start, v.len())
}

pub open spec fn not_in(s: Set<Seq<char>>) -> spec_fn(Seq<char>) -> bool {
    |c: Seq<char>| !s.contains(c)
}

/// Plans the registration of route permissions: the distinct route codes, in order, that the
/// tenant lacks become `api` permissions named after their last segment, with sort `0` and
/// status `1`. The report counts the distinct route codes, the distinct existing codes, and
/// the created ones.
pub fn plan_route_permission_sync(route_codes: Vec<String>, existing_codes: Vec<String>) -> (r: (PermissionSyncReport, Vec<NewRoutePermission>))
    ensures
        ({
            let scanned = views(route_codes@).to_set();
            let existing = views(existing_codes@).to_set();
            let (report, created) = r;
            &&& report.scanned == scanned.len()
            &&& report.existing == existing.len()
            &&& report.created == created@.len()
            &&& created@.len() == report.missing@.len()
            &&& views(report.missing@).to_set() == scanned.difference(existing)
            &&& crate::strset::sorted_strict(views(report.missing@))
            &&& forall|i: int| 0 <= i < created@.len() ==> {
                &&& (#[trigger] created@[i]).code@ == report.missing@[i]@
                &&& created@[i].name@ == last_segment(report.missing@[i]@)
                &&& created@[i].perm_type@ == "api"@
                &&& created@[i].sort == 0
                &&& created@[i].status@ == "1"@
            }
        }),
{
    let scanned = StrSet::from_strings(route_codes);
    let existing = StrSet::from_strings(existing_codes);
    proof {
        crate::strset::lemma_sorted_no_dup(scanned.seq());
        scanned.seq().unique_seq_to_set();
        crate::strset::lemma_sorted_no_dup(existing.seq());
        existing.seq().unique_seq_to_set();
    }
    let scanned_total = scanned.len();
    let existing_total = existing.len();
    let mut missing: Vec<String> = Vec::new();
    let mut created: Vec<NewRoutePermission> = Vec::new();
    let mut i: usize = 0;
    while i < scanned.items.len()
        invariant
            scanned.wf(),
            existing.wf(),
            i <= scanned.items@.len(),
            views(missing@) == scanned.seq().take(i as int).filter(not_in(existing.set())),
            created@.len() == missing@.len(),
            forall|k: int| 0 <= k < created@.len() ==> {
                &&& (#[trigger] created@[k]).code@ == missing@[k]@
                &&& created@[k].name@ == last_segment(missing@[k]@)
                &&& created@[k].perm_type@ == "api"@
                &&& created@[k].sort == 0
                &&& created@[k].status@ == "1"@
            },
        decreases scanned.items.len() - i,
    {
        proof {
            crate::transfer::portable::lemma_filter_step(scanned.seq(), i as int, not_in(existing.set()));
        }
        let code = &scanned.items[i];
        if !existing.contains(code.as_str()) {
            let ghost before = views(missing@);
            missing.push(code.clone());
            assert(views(missing@) =~= before.push(code@));
            created.push(NewRoutePermission {
                name: route_permission_name(code.as_str()),
                code: code.clone(),
                perm_type: owned("api"),
                sort: 0,
                status: owned("1"),
            });
        }
        i = i + 1;
    }
    proof {
        assert(scanned.seq().take(scanned.seq().len() as int) =~= scanned.seq());
        let m = views(missing@);
        let f = not_in(existing.set());
        assert forall|x: Seq<char>| m.to_set().contains(x) <==> scanned.set().difference(existing.set()).contains(x) by {
            if m.to_set().contains(x) {
                let k = choose|k: int| 0 <= k < m.len() && m[k] == x;
                scanned.seq().lemma_filter_pred(f, k);
                assert(scanned.seq().filter(f).contains(x));
                scanned.seq().lemma_filter_contains_rev(f, x);
            }
            if scanned.set().difference(existing.set()).contains(x) {
                let k = choose|k: int| 0 <= k < scanned.seq().len() && scanned.seq()[k] == x;
                scanned.seq().lemma_filter_contains(f, k);
            }
        }
        assert(m.to_set() =~= scanned.set().difference(existing.set()));
        crate::strset::lemma_filter_sorted(scanned.seq(), f);
    }
    let created_total = created.len();
    (PermissionSyncReport { scanned: scanned_total, existing: existing_total, created: created_total, missing }, created)
}


/// A stored permission. Times are Unix milliseconds.
pub struct StoredPermission {
    pub id: i64,
    pub tenant_id: String,
    pub name: String,
    pub code: String,
    pub parent_id: Option<i64>,
    pub perm_type: String,
    pub icon: Option<String>,
    pub sort: i32,
    pub status: String,
    pub created_at: i64,
    pub updated_at: i64,
}

/// A permission as listed, its ids in decimal.
pub struct PermissionVo {
    pub id: String,
    pub name: String,
    pub code: String,
    pub parent_id: Option<String>,
    pub perm_type: String,
    pub icon: Option<String>,
    pub sort: i32,
    pub status: String,
    pub created_at: i64,
}

/// The listing view of a permission.
pub fn permission_vo(p: StoredPermission) -> (r: PermissionVo)
    ensures
        r.id@ == signed_decimal(p.id as int),
        r.name == p.name,
        r.code == p.code,
        opt_string_view(r.parent_id) == opt_id_text(p.parent_id),
        r.perm_type == p.perm_type,
        r.icon == p.icon,
        r.sort == p.sort,
        r.status == p.status,
        r.created_at == p.created_at,
{
    PermissionVo {
        id: id_text(p.id),
        name: p.name,
        code: p.code,
        parent_id: opt_id(p.parent_id),
        perm_type: p.perm_type,
        icon: p.icon,
        sort: p.sort,
        status: p.status,
        created_at: p.created_at,
    }
}

} // verus!

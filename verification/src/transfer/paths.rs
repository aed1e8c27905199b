//! Department paths and menu stable keys resolved from stored parent links.
use vstd::prelude::*;

use crate::error::{AppError, AppResult};
use crate::menu::opt_view;
use crate::text::{chars_of, owned, str_eq, trim, trimmed};
use crate::transfer::keys::{
    action_menu_key, normalize_stable_key, route_menu_key, spec_action_menu_key,
    spec_normalize_stable_key, spec_route_menu_key, strings_view,
};

verus! {

/// A stored department: its id, its parent and its name.
#[derive(Debug)]
pub struct DeptRecord {
    pub id: i64,
    pub parent_id: Option<i64>,
    pub name: String,
}

/// Position of the last department with the given id (later rows win, as in a map built
/// by inserting the rows in order).
pub open spec fn dept_index(ds: Seq<DeptRecord>, id: i64) -> Option<int>
    decreases ds.len(),
{
    if ds.len() == 0 {
        None
    } else if ds.last().id == id {
        Some(ds.len() - 1)
    } else {
        dept_index(ds.drop_last(), id)
    }
}

/// The path of department names from the root down to `id`, following at most `fuel` links;
/// `None` when a parent is missing or the chain is longer.
pub open spec fn dept_path_fuel(ds: Seq<DeptRecord>, id: i64, fuel: nat) -> Option<Seq<Seq<char>>>
    decreases fuel,
{
    if fuel == 0 {
        None
    } else {
        match dept_index(ds, id) {
            None => None,
            Some(k) => match ds[k].parent_id {
                None => Some(seq![ds[k].name@]),
                Some(p) => match dept_path_fuel(ds, p, (fuel - 1) as nat) {
                    None => None,
                    Some(pp) => Some(pp.push(ds[k].name@)),
                },
            },
        }
    }
}

/// The path of a department. A chain among `ds.len()` rows that reaches a root does so within
/// `ds.len()` links; a longer one has met a cycle.
pub open spec fn dept_path(ds: Seq<DeptRecord>, id: i64) -> Option<Seq<Seq<char>>> {
    dept_path_fuel(ds, id, ds.len())
}

proof fn lemma_dept_index(ds: Seq<DeptRecord>, id: i64)
    ensures
        dept_index(ds, id) matches Some(k) ==> 0 <= k < ds.len() && ds[k].id == id && forall|j: int|
            k < j < ds.len() ==> ds[j].id != id,
        dept_index(ds, id) is None ==> forall|j: int| 0 <= j < ds.len() ==> ds[j].id != id,
    decreases ds.len(),
{
    if ds.len() > 0 && ds.last().id != id {
        let d = ds.drop_last();
        lemma_dept_index(d, id);
        assert forall|j: int| 0 <= j < d.len() implies d[j] == ds[j] by {}
    }
}

proof fn lemma_dept_path_fuel_more(ds: Seq<DeptRecord>, id: i64, fuel: nat, more: nat)
    requires
        dept_path_fuel(ds, id, fuel) is Some,
        fuel <= more,
    ensures
        dept_path_fuel(ds, id, more) == dept_path_fuel(ds, id, fuel),
    decreases fuel,
{
    match dept_index(ds, id) {
        None => {},
        Some(k) => match ds[k].parent_id {
            None => {},
            Some(p) => {
                lemma_dept_path_fuel_more(ds, p, (fuel - 1) as nat, (more - 1) as nat);
            },
        },
    }
}

/// With distinct ids, a department without a parent has its own name as its path, and the
/// path of one with a parent, when it resolves, is the parent's path followed by its own name.
pub proof fn law_department_path_is_parent_path_and_own_name(ds: Seq<DeptRecord>, i: int)
    requires
        0 <= i < ds.len(),
        forall|j: int, k: int| 0 <= j < k < ds.len() ==> (#[trigger] ds[j]).id != (#[trigger] ds[k]).id,
    ensures
        ds[i].parent_id is None ==> dept_path(ds, ds[i].id) == Some(seq![ds[i].name@]),
        ds[i].parent_id matches Some(p) ==> (dept_path(ds, ds[i].id) is Some ==> dept_path(ds, p) is Some && dept_path(
            ds,
            ds[i].id,
        ) == Some(dept_path(ds, p).unwrap().push(ds[i].name@))),
{
    lemma_dept_index(ds, ds[i].id);
    match dept_index(ds, ds[i].id) {
        None => {
            assert(ds[i].id == ds[i].id);
        },
        Some(k) => {
            if k != i {
                if k < i {
                    assert(ds[k].id != ds[i].id);
                } else {
                    assert(ds[i].id != ds[k].id);
                }
            }
        },
    }
    assert(dept_index(ds, ds[i].id) == Some(i));
    let n = ds.len();
    if let Some(p) = ds[i].parent_id {
        if dept_path(ds, ds[i].id) is Some {
            assert(dept_path_fuel(ds, p, (n - 1) as nat) is Some);
            lemma_dept_path_fuel_more(ds, p, (n - 1) as nat, n);
        }
    }
}

fn find_dept(ds: &[DeptRecord], id: i64) -> (r: Option<usize>)
    ensures
        r matches Some(k) ==> k < ds.len() && ds@[k as int].id == id && dept_index(ds@, id) == Some(
            k as int,
        ),
        r is None ==> dept_index(ds@, id) is None,
{
    proof {
        lemma_dept_index(ds@, id);
    }
    let mut i: usize = ds.len();
    while i > 0
        invariant
            i <= ds.len(),
            forall|j: int| i <= j < ds.len() ==> ds@[j].id != id,
        decreases i,
    {
        if ds[i - 1].id == id {
            proof {
                lemma_dept_index(ds@, id);
                match dept_index(ds@, id) {
                    None => {
                        assert(ds@[i - 1].id == id);
                    },
                    Some(k) => {
                        if k < i - 1 {
                            assert(ds@[i - 1].id != id);
                        } else if k > i - 1 {
                            assert(ds@[k].id != id);
                        }
                    },
                }
            }
            return Some(i - 1);
        }
        i = i - 1;
    }
    None
}

/// A copy of a list of strings.
pub fn clone_strings(v: &Vec<String>) -> (r: Vec<String>)
    ensures
        strings_view(r@) == strings_view(v@),
{
    let mut r: Vec<String> = Vec::new();
    let mut i: usize = 0;
    while i < v.len()
        invariant
            i <= v.len(),
            r@.len() == i,
            forall|k: int| 0 <= k < i ==> (#[trigger] r@[k])@ == v@[k]@,
        decreases v.len() - i,
    {
        r.push(v[i].clone());
        i = i + 1;
    }
    assert(strings_view(r@) =~= strings_view(v@));
    r
}

fn dept_path_with_fuel(ds: &[DeptRecord], id: i64, fuel: usize) -> (r: Option<Vec<String>>)
    ensures
        match r {
            None => dept_path_fuel(ds@, id, fuel as nat) is None,
            Some(v) => dept_path_fuel(ds@, id, fuel as nat) == Some(strings_view(v@)),
        },
    decreases fuel,
{
    if fuel == 0 {
        return None;
    }
    match find_dept(ds, id) {
        None => None,
        Some(k) => {
            let d = &ds[k];
            match d.parent_id {
                None => {
                    let mut v: Vec<String> = Vec::new();
                    v.push(d.name.clone());
                    assert(strings_view(v@) =~= seq![d.name@]);
                    Some(v)
                },
                Some(p) => match dept_path_with_fuel(ds, p, fuel - 1) {
                    None => None,
                    Some(mut v) => {
                        let ghost before = strings_view(v@);
                        v.push(d.name.clone());
                        assert(strings_view(v@) =~= before.push(d.name@));
                        Some(v)
                    },
                },
            }
        },
    }
}

fn string_vecs_eq(a: &Vec<String>, b: &Vec<String>) -> (r: bool)
    ensures
        r == (strings_view(a@) == strings_view(b@)),
{
    if a.len() != b.len() {
        assert(strings_view(a@).len() != strings_view(b@).len());
        return false;
    }
    let mut i: usize = 0;
    while i < a.len()
        invariant
            a.len() == b.len(),
            i <= a.len(),
            forall|j: int| 0 <= j < i ==> a@[j]@ == b@[j]@,
        decreases a.len() - i,
    {
        if !str_eq(a[i].as_str(), b[i].as_str()) {
            assert(strings_view(a@)[i as int] != strings_view(b@)[i as int]);
            return false;
        }
        i = i + 1;
    }
    assert(strings_view(a@) =~= strings_view(b@));
    true
}

/// Ids strictly increasing.
pub open spec fn ids_increasing<T>(v: Seq<(i64, T)>) -> bool {
    forall|i: int, j: int| 0 <= i < j < v.len() ==> #[trigger] v[i].0 < #[trigger] v[j].0
}

/// Inserts `id` into a strictly increasing id list.
pub fn insert_id(ids: &mut Vec<i64>, id: i64)
    requires
        forall|i: int, j: int| 0 <= i < j < old(ids)@.len() ==> old(ids)@[i] < old(ids)@[j],
    ensures
        forall|i: int, j: int| 0 <= i < j < final(ids)@.len() ==> final(ids)@[i] < final(ids)@[j],
        final(ids)@.to_set() == old(ids)@.to_set().insert(id),
{
    let mut i: usize = 0;
    while i < ids.len() && ids[i] < id
        invariant
            i <= ids.len(),
            forall|k: int| 0 <= k < i ==> ids@[k] < id,
        decreases ids.len() - i,
    {
        i = i + 1;
    }
    if i < ids.len() && ids[i] == id {
        assert(ids@.to_set().insert(id) =~= ids@.to_set());
        return;
    }
    let ghost before = ids@;
    ids.insert(i, id);
    proof {
        assert(ids@ =~= before.insert(i as int, id));
        assert forall|a: int, b: int| 0 <= a < b < ids@.len() implies ids@[a] < ids@[b] by {
            if a < i && b > i {
                assert(ids@[b] == before[b - 1]);
            } else if a == i && b > i {
                assert(ids@[b] == before[b - 1]);
                assert(before[i as int] > id);
            } else if a > i {
                assert(ids@[a] == before[a - 1]);
                assert(ids@[b] == before[b - 1]);
            }
        }
        assert forall|x: i64| #[trigger] ids@.to_set().contains(x) <==> before.to_set().insert(
            id,
        ).contains(x) by {
            if ids@.to_set().contains(x) {
                let k = choose|k: int| 0 <= k < ids@.len() && ids@[k] == x;
                if k < i {
                    assert(before[k] == x);
                } else if k > i {
                    assert(before[k - 1] == x);
                }
            }
            if before.to_set().contains(x) {
                let k = choose|k: int| 0 <= k < before.len() && before[k] == x;
                if k < i {
                    assert(ids@[k] == x);
                } else {
                    assert(ids@[k + 1] == x);
                }
            }
            if x == id {
                assert(ids@[i as int] == x);
            }
        }
        assert(ids@.to_set() =~= before.to_set().insert(id));
    }
}

pub open spec fn dept_ids(ds: Seq<DeptRecord>) -> Set<i64> {
    Set::new(|id: i64| exists|i: int| 0 <= i < ds.len() && #[trigger] ds[i].id == id)
}

/// All departments resolve to a path.
pub open spec fn all_depts_resolve(ds: Seq<DeptRecord>) -> bool {
    forall|i: int| 0 <= i < ds.len() ==> (#[trigger] dept_path(ds, ds[i].id)) is Some
}

/// No two distinct departments share a full path.
pub open spec fn dept_paths_unique(ds: Seq<DeptRecord>) -> bool {
    forall|a: i64, b: i64|
        #![trigger dept_path(ds, a), dept_path(ds, b)]
        dept_ids(ds).contains(a) && dept_ids(ds).contains(b) && a != b ==> dept_path(ds, a)
            != dept_path(ds, b)
}

fn sorted_dept_ids(ds: &[DeptRecord]) -> (ids: Vec<i64>)
    ensures
        forall|i: int, j: int| 0 <= i < j < ids@.len() ==> ids@[i] < ids@[j],
        ids@.to_set() == dept_ids(ds@),
{
    let mut ids: Vec<i64> = Vec::new();
    let mut i: usize = 0;
    while i < ds.len()
        invariant
            i <= ds.len(),
            forall|a: int, b: int| 0 <= a < b < ids@.len() ==> ids@[a] < ids@[b],
            ids@.to_set() == Set::new(
                |id: i64| exists|k: int| 0 <= k < i && #[trigger] ds@[k].id == id,
            ),
        decreases ds.len() - i,
    {
        insert_id(&mut ids, ds[i].id);
        proof {
            assert(ids@.to_set() =~= Set::new(
                |id: i64| exists|k: int| 0 <= k < i + 1 && #[trigger] ds@[k].id == id,
            )) by {
                assert forall|id: i64| ids@.to_set().contains(id) implies (exists|k: int|
                    0 <= k < i + 1 && #[trigger] ds@[k].id == id) by {
                    if id == ds@[i as int].id {
                        assert(ds@[i as int].id == id);
                    }
                }
            }
        }
        i = i + 1;
    }
    assert(ids@.to_set() =~= dept_ids(ds@));
    ids
}

/// Resolves every department's full path, keyed by id in increasing order.
///
/// Fails with a validation error when a parent is missing or a cycle is met, and when two
/// departments would share a full path.
pub fn build_department_paths(ds: &[DeptRecord]) -> (r: AppResult<Vec<(i64, Vec<String>)>>)
    ensures
        r is Ok <==> all_depts_resolve(ds@) && dept_paths_unique(ds@),
        r is Err ==> r->Err_0 is Validation,
        r matches Ok(v) ==> {
            &&& ids_increasing(v@)
            &&& v@.map_values(|e: (i64, Vec<String>)| e.0).to_set() == dept_ids(ds@)
            &&& forall|i: int|
                0 <= i < v@.len() ==> dept_path(ds@, #[trigger] v@[i].0) == Some(
                    strings_view(v@[i].1@),
                )
        },
{
    // Every row must resolve.
    let mut i: usize = 0;
    while i < ds.len()
        invariant
            i <= ds.len(),
            forall|k: int| 0 <= k < i ==> (#[trigger] dept_path(ds@, ds@[k].id)) is Some,
        decreases ds.len() - i,
    {
        match dept_path_with_fuel(ds, ds[i].id, ds.len()) {
            None => {
                assert(dept_path(ds@, ds@[i as int].id) is None);
                return Err(AppError::Validation(owned("部门层级存在循环或父节点不存在")));
            },
            Some(_) => {},
        }
        i = i + 1;
    }
    let ids = sorted_dept_ids(ds);
    let mut out: Vec<(i64, Vec<String>)> = Vec::new();
    let mut j: usize = 0;
    while j < ids.len()
        invariant
            all_depts_resolve(ds@),
            forall|a: int, b: int| 0 <= a < b < ids@.len() ==> ids@[a] < ids@[b],
            ids@.to_set() == dept_ids(ds@),
            j <= ids.len(),
            out@.len() == j,
            forall|k: int| 0 <= k < j ==> (#[trigger] out@[k]).0 == ids@[k],
            forall|k: int|
                0 <= k < j ==> dept_path(ds@, #[trigger] out@[k].0) == Some(
                    strings_view(out@[k].1@),
                ),
            forall|a: int, b: int|
                0 <= a < b < j ==> strings_view(#[trigger] out@[a].1@) != strings_view(
                    #[trigger] out@[b].1@,
                ),
        decreases ids.len() - j,
    {
        let id = ids[j];
        assert(ids@.to_set().contains(id));
        let ghost w = choose|w: int| 0 <= w < ds.len() && #[trigger] ds@[w].id == id;
        assert(dept_path(ds@, ds@[w].id) is Some);
        let path = match dept_path_with_fuel(ds, id, ds.len()) {
            Some(p) => p,
            None => {
                return Err(AppError::Validation(owned("部门层级存在循环")));
            },
        };
        let mut k: usize = 0;
        #[verifier::loop_isolation(false)]
        while k < out.len()
            invariant
                k <= out.len(),
                out@.len() == j,
                forall|m: int| 0 <= m < k ==> strings_view(out@[m].1@) != strings_view(path@),
            decreases out.len() - k,
        {
            if string_vecs_eq(&out[k].1, &path) {
                proof {
                    let a = out@[k as int].0;
                    assert(ids@.contains(ids@[k as int]));
                    assert(dept_ids(ds@).contains(a));
                    assert(dept_ids(ds@).contains(id));
                    assert(a != id);
                    assert(dept_path(ds@, a) == dept_path(ds@, id));
                }
                return Err(AppError::Validation(owned("部门完整路径重复")));
            }
            k = k + 1;
        }
        out.push((id, path));
        j = j + 1;
    }
    proof {
        assert forall|a: i64, b: i64|
            #![trigger dept_path(ds@, a), dept_path(ds@, b)]
            dept_ids(ds@).contains(a) && dept_ids(ds@).contains(b) && a != b implies dept_path(
            ds@,
            a,
        ) != dept_path(ds@, b) by {
            assert(ids@.to_set().contains(a));
            assert(ids@.to_set().contains(b));
            let ia = choose|x: int| 0 <= x < ids@.len() && ids@[x] == a;
            let ib = choose|x: int| 0 <= x < ids@.len() && ids@[x] == b;
            assert(out@[ia].0 == a);
            assert(out@[ib].0 == b);
            if ia < ib {
                assert(strings_view(out@[ia].1@) != strings_view(out@[ib].1@));
            } else {
                assert(strings_view(out@[ib].1@) != strings_view(out@[ia].1@));
            }
        }
        assert(out@.map_values(|e: (i64, Vec<String>)| e.0) =~= ids@);
    }
    Ok(out)
}

/// A stored menu: its id, parent, type code, bound permission and route key.
#[derive(Debug)]
pub struct MenuRecord {
    pub id: i64,
    pub parent_id: Option<i64>,
    pub menu_type: String,
    pub perm_id: Option<i64>,
    pub route_key: Option<String>,
}

/// A stored permission's id and code.
#[derive(Debug)]
pub struct PermissionCodeRecord {
    pub id: i64,
    pub code: String,
}

pub open spec fn menu_index(ms: Seq<MenuRecord>, id: i64) -> Option<int>
    decreases ms.len(),
{
    if ms.len() == 0 {
        None
    } else if ms.last().id == id {
        Some(ms.len() - 1)
    } else {
        menu_index(ms.drop_last(), id)
    }
}

/// The code of the last permission row with the given id.
pub open spec fn permission_code_of(ps: Seq<PermissionCodeRecord>, id: i64) -> Option<Seq<char>>
    decreases ps.len(),
{
    if ps.len() == 0 {
        None
    } else if ps.last().id == id {
        Some(ps.last().code@)
    } else {
        permission_code_of(ps.drop_last(), id)
    }
}

/// The stable key of menu `id`, following at most `fuel` parent links: actions (`F`) are keyed
/// by their parent's key and their permission code, directories and pages by their non-blank
/// route key.
pub open spec fn menu_key_fuel(
    ms: Seq<MenuRecord>,
    ps: Seq<PermissionCodeRecord>,
    id: i64,
    fuel: nat,
) -> Option<Seq<char>>
    decreases fuel,
{
    if fuel == 0 {
        None
    } else {
        match menu_index(ms, id) {
            None => None,
            Some(k) => {
                let m = ms[k];
                if m.menu_type@ == seq!['F'] {
                    match m.parent_id {
                        None => None,
                        Some(p) => match menu_key_fuel(ms, ps, p, (fuel - 1) as nat) {
                            None => None,
                            Some(parent_key) => match m.perm_id {
                                None => None,
                                Some(pid) => match permission_code_of(ps, pid) {
                                    None => None,
                                    Some(code) => Some(spec_action_menu_key(parent_key, code)),
                                },
                            },
                        },
                    }
                } else {
                    match m.route_key {
                        None => None,
                        Some(r) => if trim(r@).len() == 0 {
                            None
                        } else {
                            Some(spec_route_menu_key(r@))
                        },
                    }
                }
            },
        }
    }
}

pub open spec fn menu_key(ms: Seq<MenuRecord>, ps: Seq<PermissionCodeRecord>, id: i64) -> Option<
    Seq<char>,
> {
    menu_key_fuel(ms, ps, id, ms.len())
}

proof fn lemma_menu_index(ms: Seq<MenuRecord>, id: i64)
    ensures
        menu_index(ms, id) matches Some(k) ==> 0 <= k < ms.len() && ms[k].id == id && forall|j: int|
            k < j < ms.len() ==> ms[j].id != id,
        menu_index(ms, id) is None ==> forall|j: int| 0 <= j < ms.len() ==> ms[j].id != id,
    decreases ms.len(),
{
    if ms.len() > 0 && ms.last().id != id {
        let d = ms.drop_last();
        lemma_menu_index(d, id);
        assert forall|j: int| 0 <= j < d.len() implies d[j] == ms[j] by {}
    }
}

fn find_menu(ms: &[MenuRecord], id: i64) -> (r: Option<usize>)
    ensures
        r matches Some(k) ==> k < ms.len() && ms@[k as int].id == id && menu_index(ms@, id) == Some(
            k as int,
        ),
        r is None ==> menu_index(ms@, id) is None,
{
    proof {
        lemma_menu_index(ms@, id);
    }
    let mut i: usize = ms.len();
    while i > 0
        invariant
            i <= ms.len(),
            forall|j: int| i <= j < ms.len() ==> ms@[j].id != id,
        decreases i,
    {
        if ms[i - 1].id == id {
            proof {
                lemma_menu_index(ms@, id);
                match menu_index(ms@, id) {
                    None => {
                        assert(ms@[i - 1].id == id);
                    },
                    Some(k) => {
                        if k < i - 1 {
                            assert(ms@[i - 1].id != id);
                        } else if k > i - 1 {
                            assert(ms@[k].id != id);
                        }
                    },
                }
            }
            return Some(i - 1);
        }
        i = i - 1;
    }
    None
}

fn find_permission_code(ps: &[PermissionCodeRecord], id: i64) -> (r: Option<&String>)
    ensures
        r matches Some(c) ==> permission_code_of(ps@, id) == Some(c@),
        r is None ==> permission_code_of(ps@, id) is None,
{
    let mut i: usize = ps.len();
    assert(ps@.take(ps.len() as int) =~= ps@);
    while i > 0
        invariant
            i <= ps.len(),
            permission_code_of(ps@, id) == permission_code_of(ps@.take(i as int), id),
        decreases i,
    {
        assert(ps@.take(i as int).drop_last() =~= ps@.take(i - 1 as int));
        if ps[i - 1].id == id {
            return Some(&ps[i - 1].code);
        }
        i = i - 1;
    }
    None
}

fn is_action_type(t: &str) -> (r: bool)
    ensures
        r == (t@ == seq!['F']),
{
    let v = chars_of(t);
    if v.len() == 1 && v[0] == 'F' {
        assert(v@ =~= seq!['F']);
        true
    } else {
        false
    }
}

fn menu_key_with_fuel(ms: &[MenuRecord], ps: &[PermissionCodeRecord], id: i64, fuel: usize) -> (r:
    Option<String>)
    ensures
        opt_view(r) == menu_key_fuel(ms@, ps@, id, fuel as nat),
    decreases fuel,
{
    if fuel == 0 {
        return None;
    }
    match find_menu(ms, id) {
        None => None,
        Some(k) => {
            let m = &ms[k];
            if is_action_type(m.menu_type.as_str()) {
                match m.parent_id {
                    None => None,
                    Some(p) => match menu_key_with_fuel(ms, ps, p, fuel - 1) {
                        None => None,
                        Some(parent_key) => match m.perm_id {
                            None => None,
                            Some(pid) => match find_permission_code(ps, pid) {
                                None => None,
                                Some(code) => Some(
                                    action_menu_key(parent_key.as_str(), code.as_str()),
                                ),
                            },
                        },
                    },
                }
            } else {
                match &m.route_key {
                    None => None,
                    Some(r) => {
                        let t = trimmed(r.as_str());
                        if t.as_str().is_empty() {
                            None
                        } else {
                            Some(route_menu_key(r.as_str()))
                        }
                    },
                }
            }
        },
    }
}

pub open spec fn menu_ids(ms: Seq<MenuRecord>) -> Set<i64> {
    Set::new(|id: i64| exists|i: int| 0 <= i < ms.len() && #[trigger] ms[i].id == id)
}

pub open spec fn all_menus_resolve(ms: Seq<MenuRecord>, ps: Seq<PermissionCodeRecord>) -> bool {
    forall|i: int| 0 <= i < ms.len() ==> (#[trigger] menu_key(ms, ps, ms[i].id)) is Some
}

/// No two distinct menus share a stable key, ignoring ASCII case.
pub open spec fn menu_keys_unique(ms: Seq<MenuRecord>, ps: Seq<PermissionCodeRecord>) -> bool {
    forall|a: i64, b: i64|
        #![trigger menu_key(ms, ps, a), menu_key(ms, ps, b)]
        menu_ids(ms).contains(a) && menu_ids(ms).contains(b) && a != b ==> spec_normalize_stable_key(
            menu_key(ms, ps, a)->0,
        ) != spec_normalize_stable_key(menu_key(ms, ps, b)->0)
}

fn sorted_menu_ids(ms: &[MenuRecord]) -> (ids: Vec<i64>)
    ensures
        forall|i: int, j: int| 0 <= i < j < ids@.len() ==> ids@[i] < ids@[j],
        ids@.to_set() == menu_ids(ms@),
{
    let mut ids: Vec<i64> = Vec::new();
    let mut i: usize = 0;
    while i < ms.len()
        invariant
            i <= ms.len(),
            forall|a: int, b: int| 0 <= a < b < ids@.len() ==> ids@[a] < ids@[b],
            ids@.to_set() == Set::new(
                |id: i64| exists|k: int| 0 <= k < i && #[trigger] ms@[k].id == id,
            ),
        decreases ms.len() - i,
    {
        insert_id(&mut ids, ms[i].id);
        proof {
            assert(ids@.to_set() =~= Set::new(
                |id: i64| exists|k: int| 0 <= k < i + 1 && #[trigger] ms@[k].id == id,
            )) by {
                assert forall|id: i64| ids@.to_set().contains(id) implies (exists|k: int|
                    0 <= k < i + 1 && #[trigger] ms@[k].id == id) by {
                    if id == ms@[i as int].id {
                        assert(ms@[i as int].id == id);
                    }
                }
            }
        }
        i = i + 1;
    }
    assert(ids@.to_set() =~= menu_ids(ms@));
    ids
}

/// Resolves the stable key of every menu, keyed by id in increasing order.
///
/// Fails with a validation error when an action lacks its parent or permission, a directory or
/// page lacks a route key, or a cycle is met; with a conflict when two menus' keys coincide
/// without ASCII case.
pub fn build_menu_stable_keys(ms: &[MenuRecord], ps: &[PermissionCodeRecord]) -> (r: AppResult<
    Vec<(i64, String)>,
>)
    ensures
        r is Ok <==> all_menus_resolve(ms@, ps@) && menu_keys_unique(ms@, ps@),
        r is Err ==> (r->Err_0 is Validation <==> !all_menus_resolve(ms@, ps@)),
        r is Err ==> (r->Err_0 is Validation || r->Err_0 is Conflict),
        r matches Ok(v) ==> {
            &&& ids_increasing(v@)
            &&& v@.map_values(|e: (i64, String)| e.0).to_set() == menu_ids(ms@)
            &&& forall|i: int|
                0 <= i < v@.len() ==> menu_key(ms@, ps@, #[trigger] v@[i].0) == Some(v@[i].1@)
        },
{
    let mut i: usize = 0;
    while i < ms.len()
        invariant
            i <= ms.len(),
            forall|k: int| 0 <= k < i ==> (#[trigger] menu_key(ms@, ps@, ms@[k].id)) is Some,
        decreases ms.len() - i,
    {
        match menu_key_with_fuel(ms, ps, ms[i].id, ms.len()) {
            None => {
                assert(menu_key(ms@, ps@, ms@[i as int].id) is None);
                return Err(AppError::Validation(owned("菜单层级存在循环或菜单缺少父菜单、权限或 route_key")));
            },
            Some(_) => {},
        }
        i = i + 1;
    }
    let ids = sorted_menu_ids(ms);
    let mut out: Vec<(i64, String)> = Vec::new();
    let mut normalized: Vec<String> = Vec::new();
    let mut j: usize = 0;
    while j < ids.len()
        invariant
            all_menus_resolve(ms@, ps@),
            forall|a: int, b: int| 0 <= a < b < ids@.len() ==> ids@[a] < ids@[b],
            ids@.to_set() == menu_ids(ms@),
            j <= ids.len(),
            out@.len() == j,
            normalized@.len() == j,
            forall|k: int| 0 <= k < j ==> (#[trigger] out@[k]).0 == ids@[k],
            forall|k: int|
                0 <= k < j ==> menu_key(ms@, ps@, #[trigger] out@[k].0) == Some(out@[k].1@),
            forall|k: int|
                0 <= k < j ==> (#[trigger] normalized@[k])@ == spec_normalize_stable_key(
                    out@[k].1@,
                ),
            forall|a: int, b: int|
                0 <= a < b < j ==> (#[trigger] normalized@[a])@ != (#[trigger] normalized@[b])@,
        decreases ids.len() - j,
    {
        let id = ids[j];
        assert(ids@.to_set().contains(id));
        let ghost w = choose|w: int| 0 <= w < ms.len() && #[trigger] ms@[w].id == id;
        assert(menu_key(ms@, ps@, ms@[w].id) is Some);
        let key = match menu_key_with_fuel(ms, ps, id, ms.len()) {
            Some(k) => k,
            None => {
                return Err(AppError::Validation(owned("菜单层级存在循环")));
            },
        };
        let norm = normalize_stable_key(key.as_str());
        let mut k: usize = 0;
        #[verifier::loop_isolation(false)]
        while k < normalized.len()
            invariant
                k <= normalized.len(),
                forall|m: int| 0 <= m < k ==> normalized@[m]@ != norm@,
            decreases normalized.len() - k,
        {
            if str_eq(normalized[k].as_str(), norm.as_str()) {
                proof {
                    let a = out@[k as int].0;
                    assert(ids@.contains(ids@[k as int]));
                    assert(menu_ids(ms@).contains(a));
                    assert(menu_ids(ms@).contains(id));
                    assert(a != id);
                    assert(!menu_keys_unique(ms@, ps@));
                }
                return Err(AppError::Conflict(owned("目标端菜单稳定键重复")));
            }
            k = k + 1;
        }
        out.push((id, key));
        normalized.push(norm);
        j = j + 1;
    }
    proof {
        assert forall|a: i64, b: i64|
            #![trigger menu_key(ms@, ps@, a), menu_key(ms@, ps@, b)]
            menu_ids(ms@).contains(a) && menu_ids(ms@).contains(b) && a != b implies spec_normalize_stable_key(
            menu_key(ms@, ps@, a)->0,
        ) != spec_normalize_stable_key(menu_key(ms@, ps@, b)->0) by {
            assert(ids@.to_set().contains(a));
            assert(ids@.to_set().contains(b));
            let ia = choose|x: int| 0 <= x < ids@.len() && ids@[x] == a;
            let ib = choose|x: int| 0 <= x < ids@.len() && ids@[x] == b;
            assert(out@[ia].0 == a);
            assert(out@[ib].0 == b);
            if ia < ib {
                assert(normalized@[ia]@ != normalized@[ib]@);
            } else {
                assert(normalized@[ib]@ != normalized@[ia]@);
            }
        }
        assert(out@.map_values(|e: (i64, String)| e.0) =~= ids@);
    }
    Ok(out)
}

} // verus!

//! Which permission codes service accounts hold through their roles: an account holds the code
//! of every permission granted to one of its enabled roles.
use vstd::prelude::*;

use crate::strset::StrSet;
use crate::text::owned;

verus! {

/// The code of permission `p`: the last entry with that id (as collecting the rows into a map
/// keeps it).
pub open spec fn code_of(permissions: Seq<(i64, String)>, p: i64) -> Option<Seq<char>>
    decreases permissions.len(),
{
    if permissions.len() == 0 {
        None
    } else if permissions.last().0 == p {
        Some(permissions.last().1@)
    } else {
        code_of(permissions.drop_last(), p)
    }
}

/// Role `r` grants code `c`.
pub open spec fn role_grants(
    role_permissions: Seq<(i64, i64)>,
    permissions: Seq<(i64, String)>,
    r: i64,
    c: Seq<char>,
) -> bool {
    exists|j: int| 0 <= j < role_permissions.len() && #[trigger] role_permissions[j].0 == r && code_of(permissions, role_permissions[j].1) == Some(c)
}

/// Account `a`, one of `account_ids`, holds code `c` through the relation at `i`.
pub open spec fn grants_through(
    account_ids: Seq<i64>,
    account_roles: Seq<(i64, i64)>,
    enabled_role_ids: Seq<i64>,
    role_permissions: Seq<(i64, i64)>,
    permissions: Seq<(i64, String)>,
    i: int,
    a: i64,
    c: Seq<char>,
) -> bool {
    &&& 0 <= i < account_roles.len()
    &&& account_roles[i].0 == a
    &&& account_ids.contains(a)
    &&& enabled_role_ids.contains(account_roles[i].1)
    &&& role_grants(role_permissions, permissions, account_roles[i].1, c)
}

/// Account `a`, one of `account_ids`, holds code `c`.
pub open spec fn account_holds(
    account_ids: Seq<i64>,
    account_roles: Seq<(i64, i64)>,
    enabled_role_ids: Seq<i64>,
    role_permissions: Seq<(i64, i64)>,
    permissions: Seq<(i64, String)>,
    a: i64,
    c: Seq<char>,
) -> bool {
    exists|i: int| #[trigger] grants_through(account_ids, account_roles, enabled_role_ids, role_permissions, permissions, i, a, c)
}

/// Only a listed account holds anything, only through an enabled role, and only codes of
/// the given permissions: with no enabled role, or no permission, nothing is held.
pub proof fn law_grants_need_listed_account_enabled_role_and_permission(
    account_ids: Seq<i64>,
    account_roles: Seq<(i64, i64)>,
    enabled_role_ids: Seq<i64>,
    role_permissions: Seq<(i64, i64)>,
    permissions: Seq<(i64, String)>,
    a: i64,
    c: Seq<char>,
)
    ensures
        !account_ids.contains(a) ==> !account_holds(account_ids, account_roles, enabled_role_ids, role_permissions, permissions, a, c),
        !account_holds(account_ids, account_roles, Seq::empty(), role_permissions, permissions, a, c),
        !account_holds(account_ids, account_roles, enabled_role_ids, role_permissions, Seq::empty(), a, c),
        !account_holds(account_ids, account_roles, enabled_role_ids, Seq::empty(), permissions, a, c),
        account_holds(account_ids, account_roles, enabled_role_ids, role_permissions, permissions, a, c) ==> exists|
            i: int,
            j: int,
        |
            0 <= i < account_roles.len() && 0 <= j < role_permissions.len() && #[trigger] account_roles[i].0 == a
                && enabled_role_ids.contains(account_roles[i].1) && #[trigger] role_permissions[j].0
                == account_roles[i].1 && code_of(permissions, role_permissions[j].1) == Some(c),
{
    assert(code_of(Seq::<(i64, String)>::empty(), 0) is None);
    if account_holds(account_ids, account_roles, enabled_role_ids, role_permissions, permissions, a, c) {
        let i = choose|i: int| #[trigger] grants_through(account_ids, account_roles, enabled_role_ids, role_permissions, permissions, i, a, c);
        let j = choose|j: int| 0 <= j < role_permissions.len() && #[trigger] role_permissions[j].0 == account_roles[i].1 && code_of(permissions, role_permissions[j].1) == Some(c);
        assert(account_roles[i].0 == a && role_permissions[j].0 == account_roles[i].1);
    }
}

/// The codes held by the accounts of a result.
pub open spec fn result_holds(result: Seq<(i64, StrSet)>, a: i64, c: Seq<char>) -> bool {
    exists|k: int| 0 <= k < result.len() && #[trigger] result[k].0 == a && result[k].1.set().contains(c)
}

/// Account `a` has an entry in a result.
pub open spec fn has_account(result: Seq<(i64, StrSet)>, a: i64) -> bool {
    exists|k: int| 0 <= k < result.len() && #[trigger] result[k].0 == a
}

/// Each account appears once, with a well-formed, non-empty set of codes.
pub open spec fn result_wf(result: Seq<(i64, StrSet)>) -> bool {
    &&& forall|k: int| 0 <= k < result.len() ==> #[trigger] result[k].1.wf() && result[k].1.seq().len() > 0
    &&& forall|k: int, l: int| 0 <= k < l < result.len() ==> #[trigger] result[k].0 != #[trigger] result[l].0
}

fn contains_id(ids: &[i64], x: i64) -> (r: bool)
    ensures
        r == ids@.contains(x),
{
    let mut i: usize = 0;
    while i < ids.len()
        invariant
            i <= ids.len(),
            forall|k: int| 0 <= k < i ==> ids@[k] != x,
        decreases ids.len() - i,
    {
        if ids[i] == x {
            assert(ids@[i as int] == x);
            return true;
        }
        i = i + 1;
    }
    false
}

fn lookup_code(permissions: &[(i64, String)], p: i64) -> (r: Option<String>)
    ensures
        match r {
            Some(c) => code_of(permissions@, p) == Some(c@),
            None => code_of(permissions@, p) is None,
        },
{
    let mut i: usize = permissions.len();
    assert(permissions@.subrange(0, i as int) =~= permissions@);
    while i > 0
        invariant
            i <= permissions.len(),
            code_of(permissions@, p) == code_of(permissions@.subrange(0, i as int), p),
        decreases i,
    {
        let ghost pre = permissions@.subrange(0, i as int);
        if permissions[i - 1].0 == p {
            assert(pre.last() == permissions@[i - 1]);
            return Some(owned(permissions[i - 1].1.as_str()));
        }
        assert(pre.drop_last() =~= permissions@.subrange(0, i - 1));
        i = i - 1;
    }
    assert(permissions@.subrange(0, 0) =~= Seq::<(i64, String)>::empty());
    None
}

/// Adds code `c` to account `a` in `result`.
fn add_code(result: &mut Vec<(i64, StrSet)>, a: i64, c: String)
    requires
        result_wf(old(result)@),
    ensures
        result_wf(final(result)@),
        forall|x: i64, y: Seq<char>| result_holds(final(result)@, x, y) <==> result_holds(old(result)@, x, y) || (x
            == a && y == c@),
        forall|x: i64| #[trigger] has_account(final(result)@, x) <==> (x == a || has_account(old(result)@, x)),
{
    let ghost before = result@;
    let ghost cv = c@;
    let mut k: usize = 0;
    while k < result.len()
        invariant
            k <= result.len(),
            result@ == before,
            forall|m: int| 0 <= m < k ==> result@[m].0 != a,
        ensures
            k <= result.len(),
            result@ == before,
            forall|m: int| 0 <= m < k ==> result@[m].0 != a,
            k < result.len() ==> result@[k as int].0 == a,
        decreases result.len() - k,
    {
        if result[k].0 == a {
            break;
        }
        k = k + 1;
    }
    if k == result.len() {
        let mut s = StrSet::new();
        s.insert(c);
        proof {
            assert(s.set().contains(cv));
        }
        result.push((a, s));
        proof {
            let r = result@;
            assert(r == before.push((a, s)));
            assert forall|x: i64, y: Seq<char>| result_holds(r, x, y) <==> result_holds(before, x, y) || (x == a && y
                == cv) by {
                if result_holds(r, x, y) {
                    let m = choose|m: int| 0 <= m < r.len() && #[trigger] r[m].0 == x && r[m].1.set().contains(y);
                    if m < before.len() {
                        assert(before[m] == r[m]);
                    }
                }
                if result_holds(before, x, y) {
                    let m = choose|m: int| 0 <= m < before.len() && #[trigger] before[m].0 == x && before[m].1.set().contains(y);
                    assert(r[m] == before[m]);
                }
                if x == a && y == cv {
                    assert(r[before.len() as int].0 == a);
                }
            }
            assert forall|x: i64| #[trigger] has_account(r, x) <==> (x == a || has_account(before, x)) by {
                if has_account(r, x) {
                    let m = choose|m: int| 0 <= m < r.len() && #[trigger] r[m].0 == x;
                    if m < before.len() {
                        assert(before[m] == r[m]);
                    }
                }
                if has_account(before, x) {
                    let m = choose|m: int| 0 <= m < before.len() && #[trigger] before[m].0 == x;
                    assert(r[m] == before[m]);
                }
                if x == a {
                    assert(r[before.len() as int].0 == a);
                }
            }
            assert forall|m: int, l: int| 0 <= m < l < r.len() implies #[trigger] r[m].0 != #[trigger] r[l].0 by {
                if l == before.len() {
                    assert(r[m] == before[m]);
                } else {
                    assert(r[m] == before[m] && r[l] == before[l]);
                }
            }
        }
    } else {
        let (aa, mut s) = result.remove(k);
        let ghost old_set = s.set();
        s.insert(c);
        proof {
            assert(s.set().contains(cv));
        }
        result.push((aa, s));
        proof {
            let mid = before.remove(k as int);
            let r = result@;
            assert(r == mid.push((aa, s)));
            assert(aa == a);
            assert forall|i: int| 0 <= i < mid.len() implies #[trigger] mid[i] == (if i < k {
                before[i]
            } else {
                before[i + 1]
            }) by {}
            assert forall|x: i64, y: Seq<char>| result_holds(r, x, y) <==> result_holds(before, x, y) || (x == a && y
                == cv) by {
                if result_holds(r, x, y) {
                    let m = choose|m: int| 0 <= m < r.len() && #[trigger] r[m].0 == x && r[m].1.set().contains(y);
                    if m < mid.len() {
                        if m < k {
                            assert(before[m] == r[m]);
                        } else {
                            assert(before[m + 1] == r[m]);
                        }
                    } else {
                        if y != cv {
                            assert(old_set.contains(y));
                            assert(before[k as int].0 == x);
                        }
                    }
                }
                if result_holds(before, x, y) {
                    let m = choose|m: int| 0 <= m < before.len() && #[trigger] before[m].0 == x && before[m].1.set().contains(y);
                    if m < k {
                        assert(r[m] == before[m]);
                    } else if m == k {
                        assert(r[mid.len() as int].0 == x);
                        assert(r[mid.len() as int].1.set().contains(y));
                    } else {
                        assert(r[m - 1] == before[m]);
                    }
                }
                if x == a && y == cv {
                    assert(r[mid.len() as int].0 == a);
                    assert(r[mid.len() as int].1.set().contains(cv));
                }
            }
            assert forall|x: i64| #[trigger] has_account(r, x) <==> (x == a || has_account(before, x)) by {
                if has_account(r, x) {
                    let m = choose|m: int| 0 <= m < r.len() && #[trigger] r[m].0 == x;
                    if m < k {
                        assert(before[m] == r[m]);
                    } else if m < mid.len() {
                        assert(before[m + 1] == r[m]);
                    }
                }
                if has_account(before, x) {
                    let m = choose|m: int| 0 <= m < before.len() && #[trigger] before[m].0 == x;
                    if m < k {
                        assert(r[m] == before[m]);
                    } else if m == k {
                        assert(r[mid.len() as int].0 == x);
                    } else {
                        assert(r[m - 1] == before[m]);
                    }
                }
                if x == a {
                    assert(r[mid.len() as int].0 == a);
                }
            }
            assert forall|m: int| 0 <= m < r.len() implies #[trigger] r[m].1.wf() && r[m].1.seq().len() > 0 by {
                if m < k {
                    assert(r[m] == before[m]);
                } else if m < mid.len() {
                    assert(r[m] == before[m + 1]);
                }
            }
            assert forall|m: int, l: int| 0 <= m < l < r.len() implies #[trigger] r[m].0 != #[trigger] r[l].0 by {
                let bm = if m < k {
                    m
                } else {
                    m + 1
                };
                let bl = if l == mid.len() {
                    k as int
                } else if l < k {
                    l
                } else {
                    l + 1
                };
                assert(r[m].0 == before[bm].0);
                assert(r[l].0 == before[bl].0);
                assert(bm != bl);
            }
        }
    }
}

/// The permission codes that each of `account_ids` holds, given the accounts' role relations
/// (account, role), the enabled roles, the roles' permission relations (role, permission) and
/// the enabled permissions (id, code). Accounts that hold nothing are left out.
pub fn account_permission_codes_for_accounts(
    account_ids: &[i64],
    account_roles: &[(i64, i64)],
    enabled_role_ids: &[i64],
    role_permissions: &[(i64, i64)],
    permissions: &[(i64, String)],
) -> (r: Vec<(i64, StrSet)>)
    ensures
        result_wf(r@),
        forall|a: i64, c: Seq<char>| result_holds(r@, a, c) <==> account_holds(
            account_ids@,
            account_roles@,
            enabled_role_ids@,
            role_permissions@,
            permissions@,
            a,
            c,
        ),
        forall|a: i64| #[trigger] has_account(r@, a) ==> exists|c: Seq<char>| account_holds(
            account_ids@,
            account_roles@,
            enabled_role_ids@,
            role_permissions@,
            permissions@,
            a,
            c,
        ),
{
    let mut result: Vec<(i64, StrSet)> = Vec::new();
    let ghost ai = account_ids@;
    let ghost ar = account_roles@;
    let ghost en = enabled_role_ids@;
    let ghost rp = role_permissions@;
    let ghost pm = permissions@;
    let mut i: usize = 0;
    while i < account_roles.len()
        invariant
            i <= account_roles.len(),
            ar == account_roles@,
            ai == account_ids@,
            en == enabled_role_ids@,
            rp == role_permissions@,
            pm == permissions@,
            result_wf(result@),
            forall|a: i64, c: Seq<char>| result_holds(result@, a, c) <==> exists|m: int| m < i && #[trigger] grants_through(
                ai, ar, en, rp, pm, m, a, c),
            forall|a: i64| #[trigger] has_account(result@, a) ==> exists|c: Seq<char>, m: int|
                m < i && #[trigger] grants_through(ai, ar, en, rp, pm, m, a, c),
        decreases account_roles.len() - i,
    {
        let (a, role) = account_roles[i];
        if contains_id(account_ids, a) && contains_id(enabled_role_ids, role) {
            let mut j: usize = 0;
            while j < role_permissions.len()
                invariant
                    i < account_roles.len(),
                    j <= role_permissions.len(),
                    ar == account_roles@,
                    ai == account_ids@,
                    en == enabled_role_ids@,
                    rp == role_permissions@,
                    pm == permissions@,
                    ar[i as int] == (a, role),
                    ai.contains(a),
                    en.contains(role),
                    result_wf(result@),
                    forall|x: i64, c: Seq<char>| result_holds(result@, x, c) <==> (exists|m: int| m < i && #[trigger] grants_through(
                        ai, ar, en, rp, pm, m, x, c)) || (x == a && exists|jj: int| 0 <= jj < j && #[trigger] rp[jj].0 == role
                        && code_of(pm, rp[jj].1) == Some(c)),
                    forall|x: i64| #[trigger] has_account(result@, x) ==> exists|c: Seq<char>, m: int|
                        m <= i && #[trigger] grants_through(ai, ar, en, rp, pm, m, x, c),
                decreases role_permissions.len() - j,
            {
                let (rr, p) = role_permissions[j];
                if rr == role {
                    match lookup_code(permissions, p) {
                        Some(code) => {
                            let ghost cv = code@;
                            add_code(&mut result, a, code);
                            proof {
                                assert(rp[j as int].0 == role && code_of(pm, rp[j as int].1) == Some(cv));
                                assert(role_grants(rp, pm, role, cv));
                                assert(grants_through(ai, ar, en, rp, pm, i as int, a, cv));
                            }
                        },
                        None => {},
                    }
                }
                proof {
                    assert forall|x: i64, c: Seq<char>| result_holds(result@, x, c) <==> (exists|m: int| m < i && #[trigger] grants_through(
                        ai, ar, en, rp, pm, m, x, c)) || (x == a && exists|jj: int| 0 <= jj < j + 1 && #[trigger] rp[jj].0 == role
                        && code_of(pm, rp[jj].1) == Some(c)) by {
                        if x == a && exists|jj: int| 0 <= jj < j + 1 && #[trigger] rp[jj].0 == role && code_of(pm, rp[jj].1) == Some(c) {
                            let jj = choose|jj: int| 0 <= jj < j + 1 && #[trigger] rp[jj].0 == role && code_of(pm, rp[jj].1) == Some(c);
                            if jj < j {
                                assert(exists|jjj: int| 0 <= jjj < j && #[trigger] rp[jjj].0 == role && code_of(pm, rp[jjj].1) == Some(c));
                            }
                        }
                    }
                }
                j = j + 1;
            }
            proof {
                assert forall|x: i64, c: Seq<char>| result_holds(result@, x, c) <==> exists|m: int| m < i + 1 && #[trigger] grants_through(
                    ai, ar, en, rp, pm, m, x, c) by {
                    if exists|m: int| m < i + 1 && #[trigger] grants_through(ai, ar, en, rp, pm, m, x, c) {
                        let m = choose|m: int| m < i + 1 && #[trigger] grants_through(ai, ar, en, rp, pm, m, x, c);
                        if m == i {
                            assert(role_grants(rp, pm, role, c));
                            let jj = choose|jj: int| 0 <= jj < rp.len() && #[trigger] rp[jj].0 == role && code_of(pm, rp[jj].1) == Some(c);
                            assert(exists|jjj: int| 0 <= jjj < role_permissions.len() && #[trigger] rp[jjj].0 == role && code_of(pm, rp[jjj].1) == Some(c));
                        } else {
                            assert(exists|mm: int| mm < i && #[trigger] grants_through(ai, ar, en, rp, pm, mm, x, c));
                        }
                    }
                    if x == a && exists|jj: int| 0 <= jj < role_permissions.len() && #[trigger] rp[jj].0 == role && code_of(pm, rp[jj].1) == Some(c) {
                        assert(role_grants(rp, pm, role, c));
                        assert(grants_through(ai, ar, en, rp, pm, i as int, a, c));
                    }
                }
            }
        } else {
            proof {
                assert forall|x: i64, c: Seq<char>| result_holds(result@, x, c) <==> exists|m: int| m < i + 1 && #[trigger] grants_through(
                    ai, ar, en, rp, pm, m, x, c) by {
                    if exists|m: int| m < i + 1 && #[trigger] grants_through(ai, ar, en, rp, pm, m, x, c) {
                        let m = choose|m: int| m < i + 1 && #[trigger] grants_through(ai, ar, en, rp, pm, m, x, c);
                        assert(m != i);
                        assert(exists|mm: int| mm < i && #[trigger] grants_through(ai, ar, en, rp, pm, mm, x, c));
                    }
                }
            }
        }
        proof {
            assert forall|x: i64| #[trigger] has_account(result@, x) implies exists|c: Seq<char>, m: int|
                m < i + 1 && #[trigger] grants_through(ai, ar, en, rp, pm, m, x, c) by {
                let k = choose|k: int| 0 <= k < result@.len() && #[trigger] result@[k].0 == x;
                assert(result@[k].1.wf());
                let sq = result@[k].1.seq();
                let c = sq[0];
                assert(sq.contains(c));
                assert(result@[k].1.set().contains(c));
                assert(result_holds(result@, x, c));
                let m = choose|m: int| m < i + 1 && #[trigger] grants_through(ai, ar, en, rp, pm, m, x, c);
            }
        }
        i = i + 1;
    }
    proof {
        assert forall|a: i64, c: Seq<char>| result_holds(result@, a, c) <==> account_holds(ai, ar, en, rp, pm, a, c) by {
            if account_holds(ai, ar, en, rp, pm, a, c) {
                let m = choose|m: int| #[trigger] grants_through(ai, ar, en, rp, pm, m, a, c);
                assert(m < i);
            }
            if result_holds(result@, a, c) {
                let m = choose|m: int| m < i && #[trigger] grants_through(ai, ar, en, rp, pm, m, a, c);
            }
        }
        assert forall|a: i64| #[trigger] has_account(result@, a) implies exists|c: Seq<char>|
            account_holds(ai, ar, en, rp, pm, a, c) by {
            let (c, m) = choose|c: Seq<char>, m: int| m < i && #[trigger] grants_through(ai, ar, en, rp, pm, m, a, c);
            assert(account_holds(ai, ar, en, rp, pm, a, c));
        }
    }
    result
}

} // verus!

//! Writing a package's permissions and menus parent-first. The rows are processed in rounds:
//! a row whose parent is not known yet but comes with the package waits for the next round;
//! a round in which every row waits means a cycle or a missing parent. Each step decides what
//! to do with one row; the caller saves the rows the steps write.
use vstd::prelude::*;

use crate::error::{AppError, AppResult};
use crate::strset::StrSet;
use crate::text::{lower_seq, owned, push_str, str_eq};
use crate::transfer::keys::{
    is_platform_only_permission, normalize_stable_key, permission_contains_wildcard, spec_is_platform_only_permission,
    spec_permission_contains_wildcard,
};
use crate::transfer::portable::{PortableMenu, PortablePermission};
use crate::strset::StrMap;

verus! {

/// A permission row as the upsert knows it: its id and type.
pub struct KnownPermission {
    pub id: i64,
    pub perm_type: String,
}

/// A permission row to save: the package item at `index`, under `id`, with its parent and
/// type; `exists` when it updates a row.
pub struct PermissionWrite {
    pub index: usize,
    pub id: i64,
    pub parent_id: Option<i64>,
    pub perm_type: String,
    pub exists: bool,
}

/// What a step decided.
pub enum UpsertStep<W> {
    /// Save this row.
    Write(W),
    /// The row is not part of the plan's changes.
    Skip,
    /// The row's parent comes later: retry it next round.
    Defer,
    /// The round is over; the deferred rows make the next one.
    NextRound,
    /// Every row was handled.
    Done,
    /// The apply fails.
    Fail(AppError),
}

/// The state of a parent-first upsert of permissions.
pub struct PermissionUpsert {
    /// Rows by normalized code: the tenant's existing ones and those written so far.
    pub known: StrMap<KnownPermission>,
    /// Normalized codes of all package permissions.
    pub source_codes: StrSet,
    /// Package indices of this round's rows, and how far the round got.
    pub remaining: Vec<usize>,
    pub position: usize,
    /// Rows of this round waiting for the next.
    pub deferred: Vec<usize>,
}

pub open spec fn all_indices(n: nat) -> Seq<usize> {
    Seq::new(n, |i: int| i as usize)
}

impl PermissionUpsert {
    pub open spec fn wf(&self) -> bool {
        &&& self.known.wf()
        &&& self.source_codes.wf()
        &&& self.position <= self.remaining@.len()
        &&& self.deferred@.len() <= self.position
    }

    /// Starts with the tenant's existing permissions (`existing`, by normalized code) and every
    /// package row in order.
    pub fn start(items: &[PortablePermission], existing: StrMap<KnownPermission>) -> (r: PermissionUpsert)
        requires
            existing.wf(),
        ensures
            r.wf(),
            r.known == existing,
            r.source_codes.set() == Set::new(|k: Seq<char>| exists|i: int| 0 <= i < items@.len() && lower_seq(#[trigger] items@[i].code@) == k),
            r.remaining@ == all_indices(items@.len()),
            r.position == 0,
            r.deferred@.len() == 0,
    {
        let mut codes = StrSet::new();
        let mut remaining: Vec<usize> = Vec::new();
        let mut i: usize = 0;
        while i < items.len()
            invariant
                i <= items.len(),
                codes.wf(),
                codes.set() == Set::new(|k: Seq<char>| exists|j: int| 0 <= j < i && lower_seq(#[trigger] items@[j].code@) == k),
                remaining@ == all_indices(i as nat),
            decreases items.len() - i,
        {
            let ghost before = codes.set();
            codes.insert(normalize_stable_key(items[i].code.as_str()));
            remaining.push(i);
            proof {
                assert(remaining@ =~= all_indices((i + 1) as nat));
                assert(codes.set() =~= Set::new(|k: Seq<char>| exists|j: int| 0 <= j < i + 1 && lower_seq(#[trigger] items@[j].code@) == k)) by {
                    assert forall|k: Seq<char>| codes.set().contains(k) <==> exists|j: int| 0 <= j < i + 1 && lower_seq(#[trigger] items@[j].code@) == k by {
                        if exists|j: int| 0 <= j < i + 1 && lower_seq(#[trigger] items@[j].code@) == k {
                            let j = choose|j: int| 0 <= j < i + 1 && lower_seq(#[trigger] items@[j].code@) == k;
                            if j < i {
                                assert(before.contains(k));
                            }
                        }
                        if before.contains(k) {
                            let j = choose|j: int| 0 <= j < i && lower_seq(#[trigger] items@[j].code@) == k;
                            assert(0 <= j < i + 1);
                        }
                    }
                }
            }
            i = i + 1;
        }
        PermissionUpsert { known: existing, source_codes: codes, remaining, position: 0, deferred: Vec::new() }
    }

    /// One step. At the end of a round: done when the round was empty, a conflict when every
    /// row of it waited, else the waiting rows start the next round. Within a round, the next
    /// row: a wildcard or platform code is refused; its parent (by code) must be known, or come
    /// with the package (then it waits), else it is a conflict; a row outside the changes is
    /// skipped; a row whose type differs from the known row's is a conflict; otherwise it is
    /// written, under the known row's id and type or under its new id (`new_ids`, by package
    /// index) with its own type, and becomes known.
    pub fn step(&mut self, items: &[PortablePermission], changed: &StrSet, new_ids: &[i64]) -> (r: UpsertStep<PermissionWrite>)
        requires
            old(self).wf(),
            changed.wf(),
            new_ids@.len() == items@.len(),
            forall|k: int| 0 <= k < old(self).remaining@.len() ==> (#[trigger] old(self).remaining@[k]) < items@.len(),
            forall|k: int| 0 <= k < old(self).deferred@.len() ==> (#[trigger] old(self).deferred@[k]) < items@.len(),
        ensures
            final(self).wf(),
            final(self).source_codes == old(self).source_codes,
            forall|k: int| 0 <= k < final(self).remaining@.len() ==> (#[trigger] final(self).remaining@[k]) < items@.len(),
            forall|k: int| 0 <= k < final(self).deferred@.len() ==> (#[trigger] final(self).deferred@[k]) < items@.len(),
            old(self).position == old(self).remaining@.len() ==> {
                &&& old(self).remaining@.len() == 0 ==> r is Done && *final(self) == *old(self)
                &&& old(self).remaining@.len() > 0 && old(self).deferred@.len() == old(self).remaining@.len() ==> r
                    is Fail && r->Fail_0 is Conflict
                &&& old(self).remaining@.len() > 0 && old(self).deferred@.len() != old(self).remaining@.len() ==> {
                    &&& r is NextRound
                    &&& final(self).remaining@ == old(self).deferred@
                    &&& final(self).position == 0
                    &&& final(self).deferred@.len() == 0
                    &&& final(self).known == old(self).known
                    &&& final(self).remaining@.len() < old(self).remaining@.len()
                }
            },
            old(self).position < old(self).remaining@.len() ==> ({
                let idx = old(self).remaining@[old(self).position as int];
                let item = items@[idx as int];
                let key = lower_seq(item.code@);
                let parent = match item.parent_code {
                    Some(pc) => Some(lower_seq(pc@)),
                    None => None,
                };
                let parent_row = match parent {
                    Some(p) => old(self).known.get_spec(p),
                    None => None,
                };
                let old_row = old(self).known.get_spec(key);
                if spec_permission_contains_wildcard(item.code@) || spec_is_platform_only_permission(item.code@) {
                    r is Fail && r->Fail_0 is Validation
                } else if parent is Some && parent_row is None {
                    if old(self).source_codes.set().contains(parent.unwrap()) {
                        &&& r is Defer
                        &&& final(self).deferred@ == old(self).deferred@.push(idx)
                        &&& final(self).known == old(self).known
                        &&& final(self).remaining == old(self).remaining
                        &&& final(self).position == old(self).position + 1
                    } else {
                        r is Fail && r->Fail_0 is Conflict
                    }
                } else if !changed.set().contains(key) {
                    &&& r is Skip
                    &&& final(self).known == old(self).known
                    &&& final(self).deferred == old(self).deferred
                    &&& final(self).remaining == old(self).remaining
                    &&& final(self).position == old(self).position + 1
                } else if old_row matches Some(o) && o.perm_type@ != item.permission_type@ {
                    r is Fail && r->Fail_0 is Conflict
                } else {
                    &&& r matches UpsertStep::Write(w) && {
                        &&& w.index == idx
                        &&& w.id == (match old_row { Some(o) => o.id, None => new_ids@[idx as int] })
                        &&& w.parent_id == (match parent_row { Some(p) => Some(p.id), None => None })
                        &&& w.perm_type@ == item.permission_type@
                        &&& w.exists == old_row is Some
                        &&& final(self).known.get_spec(key) matches Some(k) && k.id == w.id && k.perm_type@ == w.perm_type@
                    }
                    &&& forall|y: Seq<char>| y != key ==> final(self).known.get_spec(y) == old(self).known.get_spec(y)
                    &&& final(self).deferred == old(self).deferred
                    &&& final(self).remaining == old(self).remaining
                    &&& final(self).position == old(self).position + 1
                }
            }),
    {
        if self.position == self.remaining.len() {
            if self.remaining.len() == 0 {
                return UpsertStep::Done;
            }
            if self.deferred.len() == self.remaining.len() {
                return UpsertStep::Fail(AppError::Conflict(owned("权限父子层级存在循环或缺少父权限")));
            }
            let mut next: Vec<usize> = Vec::new();
            std::mem::swap(&mut next, &mut self.deferred);
            self.remaining = next;
            self.position = 0;
            return UpsertStep::NextRound;
        }
        let idx = self.remaining[self.position];
        let item = &items[idx];
        if permission_contains_wildcard(item.code.as_str()) || is_platform_only_permission(item.code.as_str()) {
            return UpsertStep::Fail(AppError::Validation(owned("平台专用权限或超级通配权限不能应用")));
        }
        let parent_id = match &item.parent_code {
            Some(pc) => {
                let pk = normalize_stable_key(pc.as_str());
                match self.known.get(pk.as_str()) {
                    Some(p) => Some(p.id),
                    None => {
                        if self.source_codes.contains(pk.as_str()) {
                            self.deferred.push(idx);
                            self.position = self.position + 1;
                            return UpsertStep::Defer;
                        }
                        let mut msg = owned("权限 ");
                        push_str(&mut msg, item.code.as_str());
                        push_str(&mut msg, " 的父权限不存在");
                        return UpsertStep::Fail(AppError::Conflict(msg));
                    },
                }
            },
            None => None,
        };
        let key = normalize_stable_key(item.code.as_str());
        if !changed.contains(key.as_str()) {
            self.position = self.position + 1;
            return UpsertStep::Skip;
        }
        let (id, perm_type, exists) = match self.known.get(key.as_str()) {
            Some(o) => {
                if !str_eq(o.perm_type.as_str(), item.permission_type.as_str()) {
                    let mut msg = owned("目标权限 ");
                    push_str(&mut msg, item.code.as_str());
                    push_str(&mut msg, " 的类型与配置包不一致");
                    return UpsertStep::Fail(AppError::Conflict(msg));
                }
                (o.id, owned(o.perm_type.as_str()), true)
            },
            None => (new_ids[idx], owned(item.permission_type.as_str()), false),
        };
        self.known.upsert(key, KnownPermission { id, perm_type: owned(perm_type.as_str()) });
        self.position = self.position + 1;
        UpsertStep::Write(PermissionWrite { index: idx, id, parent_id, perm_type, exists })
    }
}


/// The normalized code of a package permission.
pub open spec fn permission_key(p: PortablePermission) -> Seq<char> {
    lower_seq(p.code@)
}

/// The id the last of `ws` written under `key` got.
pub open spec fn written_id(items: Seq<PortablePermission>, ws: Seq<PermissionWrite>, key: Seq<char>) -> Option<i64>
    decreases ws.len(),
{
    if ws.len() == 0 {
        None
    } else if permission_key(items[ws.last().index as int]) == key {
        Some(ws.last().id)
    } else {
        written_id(items, ws.drop_last(), key)
    }
}

/// The id a code has once `ws` were written over the existing rows.
pub open spec fn id_known(
    existing: StrMap<KnownPermission>,
    items: Seq<PortablePermission>,
    ws: Seq<PermissionWrite>,
    key: Seq<char>,
) -> Option<i64> {
    match written_id(items, ws, key) {
        Some(id) => Some(id),
        None => match existing.get_spec(key) {
            Some(k) => Some(k.id),
            None => None,
        },
    }
}

pub open spec fn known_ids_match(
    known: StrMap<KnownPermission>,
    existing: StrMap<KnownPermission>,
    items: Seq<PortablePermission>,
    ws: Seq<PermissionWrite>,
) -> bool {
    forall|y: Seq<char>| #[trigger] known.get_spec(y) is Some == id_known(existing, items, ws, y) is Some && (
    known.get_spec(y) matches Some(k) ==> id_known(existing, items, ws, y) == Some(k.id))
}

/// What a write records: the item is one of the changes; it gets the id its code already has
/// (after the writes before it) or its new id; its parent, when it has one, is known by then
/// and gives its id.
pub open spec fn write_ok(
    existing: StrMap<KnownPermission>,
    items: Seq<PortablePermission>,
    changed: Set<Seq<char>>,
    new_ids: Seq<i64>,
    ws: Seq<PermissionWrite>,
    j: int,
) -> bool {
    let w = ws[j];
    let before = ws.take(j);
    let item = items[w.index as int];
    &&& w.index < items.len()
    &&& changed.contains(permission_key(item))
    &&& w.id == (match id_known(existing, items, before, permission_key(item)) {
        Some(id) => id,
        None => new_ids[w.index as int],
    })
    &&& w.exists == id_known(existing, items, before, permission_key(item)) is Some
    &&& w.parent_id == (match item.parent_code {
        Some(pc) => id_known(existing, items, before, lower_seq(pc@)),
        None => None,
    })
    &&& (item.parent_code matches Some(pc) ==> w.parent_id is Some)
}

/// The normalized code of a package permission's parent, if it names one.
pub open spec fn permission_parent_key(p: PortablePermission) -> Option<Seq<char>> {
    match p.parent_code {
        Some(pc) => Some(lower_seq(pc@)),
        None => None,
    }
}

/// The permission's parent, if it has one, is among `keys`.
pub open spec fn permission_parent_in(p: PortablePermission, keys: Set<Seq<char>>) -> bool {
    match permission_parent_key(p) {
        Some(k) => keys.contains(k),
        None => true,
    }
}

/// The codes known after `n` rounds of writing: the existing ones, then each round the codes
/// of the changed package permissions whose parent was known after the round before.
pub open spec fn permission_keys_after(
    existing: StrMap<KnownPermission>,
    items: Seq<PortablePermission>,
    changed: Set<Seq<char>>,
    n: nat,
) -> Set<Seq<char>>
    decreases n,
{
    if n == 0 {
        Set::new(|k: Seq<char>| existing.get_spec(k) is Some)
    } else {
        let prev = permission_keys_after(existing, items, changed, (n - 1) as nat);
        prev.union(
            Set::new(
                |k: Seq<char>|
                    exists|i: int|
                        0 <= i < items.len() && changed.contains(#[trigger] permission_key(items[i])) && permission_key(items[i])
                            == k && permission_parent_in(items[i], prev),
            ),
        )
    }
}

/// A code becomes known after some number of rounds.
pub open spec fn permission_key_reachable(
    existing: StrMap<KnownPermission>,
    items: Seq<PortablePermission>,
    changed: Set<Seq<char>>,
    k: Seq<char>,
) -> bool {
    exists|n: nat| #[trigger] permission_keys_after(existing, items, changed, n).contains(k)
}

/// When a package's permissions can be applied: none is a wildcard or reserved to the
/// platform; every parent named is an existing permission or a changed package permission
/// that can itself be placed; and every changed permission keeps the type of the row with its
/// code (the existing row's, else that of the other changed permissions with that code).
pub open spec fn permissions_applicable(
    existing: StrMap<KnownPermission>,
    items: Seq<PortablePermission>,
    changed: Set<Seq<char>>,
) -> bool {
    &&& forall|i: int| 0 <= i < items.len() ==> !spec_permission_contains_wildcard((#[trigger] items[i]).code@)
        && !spec_is_platform_only_permission(items[i].code@)
    &&& forall|i: int| 0 <= i < items.len() ==> (permission_parent_key(#[trigger] items[i]) matches Some(pk)
        ==> permission_key_reachable(existing, items, changed, pk))
    &&& forall|i: int| 0 <= i < items.len() && changed.contains(permission_key(#[trigger] items[i])) ==> (existing.get_spec(
        permission_key(items[i]),
    ) matches Some(e) ==> e.perm_type@ == items[i].permission_type@)
    &&& forall|i: int, j: int|
        0 <= i < items.len() && 0 <= j < items.len() && changed.contains(permission_key(#[trigger] items[i]))
            && permission_key(items[i]) == permission_key(#[trigger] items[j]) && existing.get_spec(permission_key(items[i])) is None
            ==> items[i].permission_type@ == items[j].permission_type@
}

/// A changed permission whose parent is known after round `n` is known after round `n + 1`.
proof fn lemma_permission_key_step(
    existing: StrMap<KnownPermission>,
    items: Seq<PortablePermission>,
    changed: Set<Seq<char>>,
    i: int,
    n: nat,
)
    requires
        0 <= i < items.len(),
        changed.contains(permission_key(items[i])),
        permission_parent_in(items[i], permission_keys_after(existing, items, changed, n)),
    ensures
        permission_keys_after(existing, items, changed, n + 1).contains(permission_key(items[i])),
{
    let prev = permission_keys_after(existing, items, changed, n);
    assert(permission_keys_after(existing, items, changed, (n + 1) as nat) == prev.union(
        Set::new(
            |k: Seq<char>|
                exists|i: int|
                    0 <= i < items.len() && changed.contains(#[trigger] permission_key(items[i])) && permission_key(items[i]) == k
                        && permission_parent_in(items[i], prev),
        ),
    ));
}

/// Every code known after some rounds is an existing code or the code of a package permission.
proof fn lemma_permission_keys_after_origin(
    existing: StrMap<KnownPermission>,
    items: Seq<PortablePermission>,
    changed: Set<Seq<char>>,
    n: nat,
    k: Seq<char>,
)
    requires
        permission_keys_after(existing, items, changed, n).contains(k),
    ensures
        existing.get_spec(k) is Some || exists|i: int| 0 <= i < items.len() && #[trigger] permission_key(items[i]) == k,
    decreases n,
{
    if n > 0 {
        let prev = permission_keys_after(existing, items, changed, (n - 1) as nat);
        if !prev.contains(k) {
            let i = choose|i: int|
                0 <= i < items.len() && changed.contains(#[trigger] permission_key(items[i])) && permission_key(items[i]) == k
                    && permission_parent_in(items[i], prev);
            assert(permission_key(items[i]) == k);
        } else {
            lemma_permission_keys_after_origin(existing, items, changed, (n - 1) as nat, k);
        }
    }
}

/// A set holding the existing codes and closed under placing changed permissions holds every
/// code known after any number of rounds.
proof fn lemma_permission_keys_after_within(
    existing: StrMap<KnownPermission>,
    items: Seq<PortablePermission>,
    changed: Set<Seq<char>>,
    s: Set<Seq<char>>,
    n: nat,
)
    requires
        forall|k: Seq<char>| existing.get_spec(k) is Some ==> #[trigger] s.contains(k),
        forall|i: int| 0 <= i < items.len() && changed.contains(permission_key(#[trigger] items[i])) && permission_parent_in(items[i], s)
            ==> s.contains(permission_key(items[i])),
    ensures
        permission_keys_after(existing, items, changed, n).subset_of(s),
    decreases n,
{
    if n > 0 {
        lemma_permission_keys_after_within(existing, items, changed, s, (n - 1) as nat);
        let prev = permission_keys_after(existing, items, changed, (n - 1) as nat);
        assert forall|k: Seq<char>| permission_keys_after(existing, items, changed, n).contains(k) implies s.contains(k) by {
            if !prev.contains(k) {
                let i = choose|i: int|
                    0 <= i < items.len() && changed.contains(#[trigger] permission_key(items[i])) && permission_key(items[i]) == k
                        && permission_parent_in(items[i], prev);
                match permission_parent_key(items[i]) {
                    Some(pk) => {
                        assert(prev.contains(pk));
                    },
                    None => {},
                }
                assert(permission_parent_in(items[i], s));
            }
        }
    }
}

/// Plans the upsert of a package's permissions parent-first (see `PermissionUpsert::step`),
/// returning the rows to save in order.
pub fn plan_permission_upserts(
    items: &[PortablePermission],
    existing: StrMap<KnownPermission>,
    changed: &StrSet,
    new_ids: &[i64],
) -> (r: AppResult<Vec<PermissionWrite>>)
    requires
        existing.wf(),
        changed.wf(),
        new_ids@.len() == items@.len(),
    ensures
        r is Err ==> r->Err_0 is Validation || r->Err_0 is Conflict,
        r matches Ok(ws) ==> forall|j: int| 0 <= j < ws@.len() ==> write_ok(existing, items@, changed.set(), new_ids@, ws@, j),
        r matches Ok(ws) ==> forall|i: int| 0 <= i < items@.len() && changed.set().contains(permission_key(#[trigger] items@[i]))
            ==> exists|j: int| 0 <= j < ws@.len() && ws@[j].index == i,
        r matches Ok(ws) ==> forall|j: int, l: int| 0 <= j < l < ws@.len() ==> (#[trigger] ws@[j]).index != (#[trigger] ws@[l]).index,
        r is Ok ==> forall|i: int| 0 <= i < items@.len() ==> !spec_permission_contains_wildcard((#[trigger] items@[i]).code@)
            && !spec_is_platform_only_permission(items@[i].code@),
        r is Ok <==> permissions_applicable(existing, items@, changed.set()),
        (forall|i: int| 0 <= i < items@.len() ==> !spec_permission_contains_wildcard((#[trigger] items@[i]).code@)
            && !spec_is_platform_only_permission(items@[i].code@)) ==> (r is Err ==> r->Err_0 is Conflict),
{
    let ghost ex = existing;
    let ghost n = items@.len();
    let mut up = PermissionUpsert::start(items, existing);
    let mut writes: Vec<PermissionWrite> = Vec::new();
    let ghost mut handled: Set<usize> = Set::empty();
    proof {
        assert forall|y: Seq<char>| (#[trigger] up.known.get_spec(y)) is Some implies permission_key_reachable(
            ex,
            items@,
            changed.set(),
            y,
        ) by {
            assert(permission_keys_after(ex, items@, changed.set(), 0).contains(y));
        }
        let rest = rest_of(up.remaining@, up.position as int);
        assert(rest =~= up.remaining@);
        assert(no_repeats(rest)) by {
            assert forall|a: int, b: int| 0 <= a < b < rest.len() implies (#[trigger] rest[a]) != (#[trigger] rest[b]) by {
                assert(b < items.len());
                assert(rest[a] == a as usize && rest[b] == b as usize);
            }
        }
        assert forall|i: usize| (i < n) == (handled.contains(i) || up.deferred@.contains(i) || rest_of(up.remaining@, up.position as int).contains(i)) by {
            if i < n {
                assert(rest[i as int] == i);
            }
            if rest.contains(i) {
                let k = choose|k: int| 0 <= k < rest.len() && rest[k] == i;
                assert(rest[k] == k as usize);
            }
        }
    }
    loop
        invariant
            up.wf(),
            changed.wf(),
            n == items@.len(),
            new_ids@.len() == items@.len(),
            forall|k: int| 0 <= k < up.remaining@.len() ==> (#[trigger] up.remaining@[k]) < items@.len(),
            forall|k: int| 0 <= k < up.deferred@.len() ==> (#[trigger] up.deferred@[k]) < items@.len(),
            ex == existing,
            known_ids_match(up.known, ex, items@, writes@),
            forall|j: int| 0 <= j < writes@.len() ==> write_ok(ex, items@, changed.set(), new_ids@, writes@, j),
            forall|i: usize| (i < n) == (handled.contains(i) || up.deferred@.contains(i) || rest_of(up.remaining@, up.position as int).contains(i)),
            forall|i: usize| #[trigger] handled.contains(i) ==> !up.deferred@.contains(i) && !rest_of(up.remaining@, up.position as int).contains(i),
            forall|i: usize| #[trigger] up.deferred@.contains(i) ==> !rest_of(up.remaining@, up.position as int).contains(i),
            no_repeats(rest_of(up.remaining@, up.position as int)),
            no_repeats(up.deferred@),
            forall|j: int| 0 <= j < writes@.len() ==> handled.contains((#[trigger] writes@[j]).index),
            forall|j: int, l: int| 0 <= j < l < writes@.len() ==> (#[trigger] writes@[j]).index != (#[trigger] writes@[l]).index,
            forall|i: usize| #[trigger] handled.contains(i) && changed.set().contains(permission_key(items@[i as int])) ==> exists|j: int|
                0 <= j < writes@.len() && writes@[j].index == i,
            forall|i: usize| #[trigger] handled.contains(i) ==> !spec_permission_contains_wildcard(items@[i as int].code@)
                && !spec_is_platform_only_permission(items@[i as int].code@),
            up.source_codes.set() == Set::new(|k: Seq<char>| exists|i: int| 0 <= i < items@.len() && lower_seq(#[trigger] items@[i].code@) == k),
            forall|y: Seq<char>| ex.get_spec(y) is Some ==> (#[trigger] up.known.get_spec(y)) is Some && up.known.get_spec(y).unwrap().perm_type@
                == ex.get_spec(y).unwrap().perm_type@,
            forall|y: Seq<char>| (#[trigger] up.known.get_spec(y)) is Some ==> permission_key_reachable(ex, items@, changed.set(), y),
            forall|y: Seq<char>| (#[trigger] up.known.get_spec(y)) is Some && ex.get_spec(y) is None ==> exists|i: int|
                0 <= i < n && changed.set().contains(#[trigger] permission_key(items@[i])) && permission_key(items@[i]) == y
                    && items@[i].permission_type@ == up.known.get_spec(y).unwrap().perm_type@,
            forall|i: usize| #[trigger] handled.contains(i) ==> (permission_parent_key(items@[i as int]) is Some ==> permission_key_reachable(
                ex,
                items@,
                changed.set(),
                permission_parent_key(items@[i as int]).unwrap(),
            )),
            forall|i: usize| #[trigger] handled.contains(i) && changed.set().contains(permission_key(items@[i as int])) ==> up.known.get_spec(
                permission_key(items@[i as int]),
            ) is Some && up.known.get_spec(permission_key(items@[i as int])).unwrap().perm_type@ == items@[i as int].permission_type@,
            up.deferred@.len() == up.position ==> forall|k: int| 0 <= k < up.deferred@.len() ==> permission_parent_key(
                items@[(#[trigger] up.deferred@[k]) as int],
            ) is Some && up.known.get_spec(permission_parent_key(items@[up.deferred@[k] as int]).unwrap()) is None,
        decreases up.remaining@.len(), up.remaining@.len() - up.position,
    {
        let ghost before_known = up.known;
        let ghost before_writes = writes@;
        let ghost before_pos = up.position;
        let ghost before_remaining = up.remaining@;
        let ghost before_deferred = up.deferred@;
        let ghost r0 = rest_of(before_remaining, before_pos as int);
        let step = up.step(items, changed, new_ids);
        proof {
            if before_pos < before_remaining.len() {
                lemma_rest_split(before_remaining, before_pos as int);
                let idx = before_remaining[before_pos as int];
                let r1 = rest_of(before_remaining, before_pos + 1);
                assert forall|i: usize| before_deferred.contains(i) || i == idx implies !r1.contains(i) by {
                    if before_deferred.contains(i) {
                        assert(!r0.contains(i));
                    }
                }
            }
        }
        match step {
            UpsertStep::Write(w) => {
                proof {
                    let idx = before_remaining[before_pos as int];
                    let key = permission_key(items@[idx as int]);
                    let ws = before_writes.push(w);
                    assert(ws.take(before_writes.len() as int) =~= before_writes);
                    assert(written_id(items@, ws, key) == Some(w.id));
                    assert forall|y: Seq<char>| y != key implies written_id(items@, ws, y) == written_id(items@, before_writes, y) by {
                        assert(ws.drop_last() =~= before_writes);
                    }
                    match items@[idx as int].parent_code {
                        Some(pc) => {
                            assert(before_known.get_spec(lower_seq(pc@)) is Some);
                        },
                        None => {},
                    }
                    assert(write_ok(ex, items@, changed.set(), new_ids@, ws, before_writes.len() as int));
                    assert forall|j: int| 0 <= j < before_writes.len() implies write_ok(ex, items@, changed.set(), new_ids@, ws, j) by {
                        assert(write_ok(ex, items@, changed.set(), new_ids@, before_writes, j));
                        assert(ws.take(j) =~= before_writes.take(j));
                        assert(ws[j] == before_writes[j]);
                    }
                    assert(!handled.contains(idx));
                    handled = handled.insert(idx);
                    assert forall|j: int| 0 <= j < ws.len() implies handled.contains((#[trigger] ws[j]).index) by {
                        if j < before_writes.len() {
                            assert(ws[j] == before_writes[j]);
                        }
                    }
                    assert forall|i: usize| #[trigger] handled.contains(i) && changed.set().contains(permission_key(items@[i as int]))
                        implies exists|j: int| 0 <= j < ws.len() && ws[j].index == i by {
                        if i == idx {
                            assert(ws[before_writes.len() as int].index == i);
                        } else {
                            let j = choose|j: int| 0 <= j < before_writes.len() && before_writes[j].index == i;
                            assert(ws[j] == before_writes[j]);
                        }
                    }
                    assert(permission_key_reachable(ex, items@, changed.set(), key)) by {
                        match permission_parent_key(items@[idx as int]) {
                            Some(pk) => {
                                assert(before_known.get_spec(pk) is Some);
                                let n0 = choose|n0: nat| #[trigger] permission_keys_after(ex, items@, changed.set(), n0).contains(pk);
                                lemma_permission_key_step(ex, items@, changed.set(), idx as int, n0);
                                assert(permission_keys_after(ex, items@, changed.set(), n0 + 1).contains(key));
                            },
                            None => {
                                lemma_permission_key_step(ex, items@, changed.set(), idx as int, 0);
                                assert(permission_keys_after(ex, items@, changed.set(), 1).contains(key));
                            },
                        }
                    }
                }
                writes.push(w);
            },
            UpsertStep::Fail(e) => {
                proof {
                    if before_pos < before_remaining.len() {
                        let idx = before_remaining[before_pos as int];
                        assert(idx < items.len());
                        if e is Validation {
                            assert(spec_permission_contains_wildcard(items@[idx as int].code@) || spec_is_platform_only_permission(
                                items@[idx as int].code@,
                            ));
                        }
                    }
                    if permissions_applicable(ex, items@, changed.set()) {
                        if before_pos == before_remaining.len() {
                            let d = before_deferred[0];
                            assert(d < items.len());
                            let pk = permission_parent_key(items@[d as int]).unwrap();
                            assert(before_known.get_spec(pk) is None);
                            assert(permission_key_reachable(ex, items@, changed.set(), pk));
                            let n0 = choose|n0: nat| #[trigger] permission_keys_after(ex, items@, changed.set(), n0).contains(pk);
                            let sk = Set::new(|k: Seq<char>| before_known.get_spec(k) is Some);
                            assert forall|k: Seq<char>| ex.get_spec(k) is Some implies #[trigger] sk.contains(k) by {
                                assert(before_known.get_spec(k) is Some);
                            }
                            assert forall|i: int|
                                0 <= i < items@.len() && changed.set().contains(permission_key(#[trigger] items@[i])) && permission_parent_in(
                                    items@[i],
                                    sk,
                                ) implies sk.contains(permission_key(items@[i])) by {
                                let u = i as usize;
                                assert(u < n);
                                if before_deferred.contains(u) {
                                    let k = choose|k: int| 0 <= k < before_deferred.len() && before_deferred[k] == u;
                                    assert(permission_parent_key(items@[before_deferred[k] as int]) is Some);
                                } else {
                                    assert(!rest_of(before_remaining, before_pos as int).contains(u));
                                    assert(handled.contains(u));
                                    assert(before_known.get_spec(permission_key(items@[u as int])) is Some);
                                }
                            }
                            lemma_permission_keys_after_within(ex, items@, changed.set(), sk, n0);
                            assert(sk.contains(pk));
                            assert(false);
                        } else {
                            let idx = before_remaining[before_pos as int];
                            let item = items@[idx as int];
                            assert(!spec_permission_contains_wildcard(item.code@) && !spec_is_platform_only_permission(item.code@));
                            if permission_parent_key(item) is Some && before_known.get_spec(permission_parent_key(item).unwrap()) is None {
                                let pk = permission_parent_key(item).unwrap();
                                assert(permission_key_reachable(ex, items@, changed.set(), pk));
                                let n0 = choose|n0: nat| #[trigger] permission_keys_after(ex, items@, changed.set(), n0).contains(pk);
                                lemma_permission_keys_after_origin(ex, items@, changed.set(), n0, pk);
                                if ex.get_spec(pk) is None {
                                    let i = choose|i: int| 0 <= i < items@.len() && #[trigger] permission_key(items@[i]) == pk;
                                    assert(lower_seq(items@[i].code@) == pk);
                                    assert(up.source_codes.set().contains(pk));
                                }
                                assert(false);
                            } else {
                                let key = permission_key(item);
                                assert(changed.set().contains(key));
                                let o = before_known.get_spec(key).unwrap();
                                assert(o.perm_type@ != item.permission_type@);
                                if ex.get_spec(key) is Some {
                                    assert(false);
                                } else {
                                    let i = choose|i: int|
                                        0 <= i < n && changed.set().contains(#[trigger] permission_key(items@[i])) && permission_key(items@[i])
                                            == key && items@[i].permission_type@ == before_known.get_spec(key).unwrap().perm_type@;
                                    assert(items@[i].permission_type@ == items@[idx as int].permission_type@);
                                    assert(false);
                                }
                            }
                        }
                    }
                }
                return Err(e);
            },
            UpsertStep::Done => {
                proof {
                    assert(rest_of(up.remaining@, up.position as int) =~= Seq::<usize>::empty());
                    assert(up.deferred@ =~= Seq::<usize>::empty());
                    assert forall|i: int| 0 <= i < items@.len() && changed.set().contains(permission_key(#[trigger] items@[i])) implies exists|j: int|
                        0 <= j < writes@.len() && writes@[j].index == i by {
                        assert(i < items.len());
                        let u = i as usize;
                        assert(u < n);
                        assert(handled.contains(u));
                    }
                    assert forall|i: int| 0 <= i < items@.len() implies !spec_permission_contains_wildcard((#[trigger] items@[i]).code@)
                        && !spec_is_platform_only_permission(items@[i].code@) by {
                        assert(i < items.len());
                        let u = i as usize;
                        assert(u < n);
                        assert(handled.contains(u));
                    }
                    assert(permissions_applicable(ex, items@, changed.set())) by {
                        assert forall|i: int| 0 <= i < items@.len() implies (permission_parent_key(#[trigger] items@[i]) matches Some(pk)
                            ==> permission_key_reachable(ex, items@, changed.set(), pk)) by {
                            assert(i < items.len());
                            let u = i as usize;
                            assert(u < n && u as int == i);
                            assert(handled.contains(u));
                        }
                        assert forall|i: int| 0 <= i < items@.len() && changed.set().contains(permission_key(#[trigger] items@[i])) implies (
                        ex.get_spec(permission_key(items@[i])) matches Some(e) ==> e.perm_type@ == items@[i].permission_type@) by {
                            assert(i < items.len());
                            let u = i as usize;
                            assert(u < n && u as int == i);
                            assert(handled.contains(u));
                            assert(up.known.get_spec(permission_key(items@[i])) is Some);
                        }
                        assert forall|i: int, j: int|
                            0 <= i < items@.len() && 0 <= j < items@.len() && changed.set().contains(permission_key(#[trigger] items@[i]))
                                && permission_key(items@[i]) == permission_key(#[trigger] items@[j]) && ex.get_spec(permission_key(items@[i]))
                                is None implies items@[i].permission_type@ == items@[j].permission_type@ by {
                            assert(i < items.len() && j < items.len());
                            let u = i as usize;
                            let v = j as usize;
                            assert(u < n && u as int == i);
                            assert(v < n && v as int == j);
                            assert(handled.contains(u));
                            assert(handled.contains(v));
                            assert(changed.set().contains(permission_key(items@[v as int])));
                        }
                    }
                }
                return Ok(writes);
            },
            UpsertStep::Skip => {
                proof {
                    let idx = before_remaining[before_pos as int];
                    assert(!handled.contains(idx));
                    handled = handled.insert(idx);
                }
            },
            UpsertStep::Defer => {
                proof {
                    let idx = before_remaining[before_pos as int];
                    assert(up.deferred@ == before_deferred.push(idx));
                    assert forall|i: usize| up.deferred@.contains(i) <==> before_deferred.contains(i) || i == idx by {
                        if up.deferred@.contains(i) {
                            let k = choose|k: int| 0 <= k < up.deferred@.len() && up.deferred@[k] == i;
                            if k < before_deferred.len() {
                                assert(before_deferred[k] == i);
                            }
                        }
                        if before_deferred.contains(i) {
                            let k = choose|k: int| 0 <= k < before_deferred.len() && before_deferred[k] == i;
                            assert(up.deferred@[k] == i);
                        }
                        if i == idx {
                            assert(up.deferred@[before_deferred.len() as int] == i);
                        }
                    }
                    assert(!before_deferred.contains(idx));
                    assert(no_repeats(up.deferred@)) by {
                        assert forall|a: int, b: int| 0 <= a < b < up.deferred@.len() implies (#[trigger] up.deferred@[a])
                            != (#[trigger] up.deferred@[b]) by {
                            if b == before_deferred.len() {
                                assert(before_deferred.contains(up.deferred@[a]));
                            } else {
                                assert(up.deferred@[a] == before_deferred[a] && up.deferred@[b] == before_deferred[b]);
                            }
                        }
                    }
                }
            },
            UpsertStep::NextRound => {
                proof {
                    assert(r0 =~= Seq::<usize>::empty());
                    assert(rest_of(up.remaining@, up.position as int) =~= up.remaining@);
                    assert(up.deferred@ =~= Seq::<usize>::empty());
                }
            },
        }
    }
}

/// The part of a round not processed yet.
pub open spec fn rest_of(remaining: Seq<usize>, position: int) -> Seq<usize> {
    remaining.subrange(position, remaining.len() as int)
}

pub open spec fn no_repeats(s: Seq<usize>) -> bool {
    forall|a: int, b: int| 0 <= a < b < s.len() ==> (#[trigger] s[a]) != (#[trigger] s[b])
}

proof fn lemma_rest_split(remaining: Seq<usize>, position: int)
    requires
        0 <= position < remaining.len(),
    ensures
        forall|i: usize| rest_of(remaining, position).contains(i) <==> i == remaining[position] || rest_of(remaining, position + 1).contains(i),
        no_repeats(rest_of(remaining, position)) ==> !rest_of(remaining, position + 1).contains(remaining[position]),
        no_repeats(rest_of(remaining, position)) ==> no_repeats(rest_of(remaining, position + 1)),
{
    let r0 = rest_of(remaining, position);
    let r1 = rest_of(remaining, position + 1);
    let idx = remaining[position];
    assert forall|i: usize| r0.contains(i) <==> i == idx || r1.contains(i) by {
        if r0.contains(i) {
            let k = choose|k: int| 0 <= k < r0.len() && r0[k] == i;
            if k > 0 {
                assert(r1[k - 1] == i);
            }
        }
        if r1.contains(i) {
            let k = choose|k: int| 0 <= k < r1.len() && r1[k] == i;
            assert(r0[k + 1] == i);
        }
        if i == idx {
            assert(r0[0] == idx);
        }
    }
    if no_repeats(r0) {
        if r1.contains(idx) {
            let k = choose|k: int| 0 <= k < r1.len() && r1[k] == idx;
            assert(r0[k + 1] == idx && r0[0] == idx);
        }
        assert forall|a: int, b: int| 0 <= a < b < r1.len() implies (#[trigger] r1[a]) != (#[trigger] r1[b]) by {
            assert(r1[a] == r0[a + 1] && r1[b] == r0[b + 1]);
        }
    }
}


/// A menu row as the upsert knows it: its id and type.
pub struct KnownMenu {
    pub id: i64,
    pub menu_type: String,
}

/// A menu row to save: the package item at `index`, under `id`, with its parent and bound
/// permission; `exists` when it updates a row.
pub struct MenuWrite {
    pub index: usize,
    pub id: i64,
    pub parent_id: Option<i64>,
    pub perm_id: Option<i64>,
    pub exists: bool,
}

/// The state of a parent-first upsert of menus.
pub struct MenuUpsert {
    /// Live rows by normalized stable key: the tenant's existing ones and those written so far.
    pub known: StrMap<KnownMenu>,
    /// Normalized stable keys of all package menus.
    pub source_keys: StrSet,
    pub remaining: Vec<usize>,
    pub position: usize,
    pub deferred: Vec<usize>,
}

/// The normalized stable key of a package menu.
pub open spec fn menu_key(m: PortableMenu) -> Seq<char> {
    lower_seq(m.stable_key@)
}

pub open spec fn opt_lower(o: Option<String>) -> Option<Seq<char>> {
    match o {
        Some(s) => Some(lower_seq(s@)),
        None => None,
    }
}

/// The permission id a menu binds, when its permission code names a target permission.
pub open spec fn bound_permission(m: PortableMenu, permission_ids: StrMap<i64>) -> Option<i64> {
    match m.permission_code {
        Some(c) => permission_ids.get_spec(lower_seq(c@)),
        None => None,
    }
}

/// What a menu type needs: a directory a route key; a page a route key and a permission; an
/// action a permission and a parent, and no route key. Other types are refused.
pub open spec fn menu_shape_ok(m: PortableMenu, has_perm: bool, has_parent: bool) -> bool {
    if m.menu_type@ == "M"@ {
        m.route_key is Some
    } else if m.menu_type@ == "C"@ {
        m.route_key is Some && has_perm
    } else if m.menu_type@ == "F"@ {
        m.route_key is None && has_perm && has_parent
    } else {
        false
    }
}

fn check_menu_shape(m: &PortableMenu, has_perm: bool, has_parent: bool) -> (r: AppResult<()>)
    ensures
        r is Ok <==> menu_shape_ok(*m, has_perm, has_parent),
        r is Err ==> r->Err_0 is Validation,
{
    if str_eq(m.menu_type.as_str(), "M") {
        if m.route_key.is_none() {
            return Err(AppError::Validation(owned("目录菜单必须声明 route_key")));
        }
        Ok(())
    } else if str_eq(m.menu_type.as_str(), "C") {
        if m.route_key.is_none() || !has_perm {
            return Err(AppError::Validation(owned("页面菜单必须声明 route_key 并绑定权限")));
        }
        Ok(())
    } else if str_eq(m.menu_type.as_str(), "F") {
        if m.route_key.is_some() || !has_perm || !has_parent {
            return Err(AppError::Validation(owned("操作菜单必须绑定权限和父菜单，且不能声明 route_key")));
        }
        Ok(())
    } else {
        Err(AppError::Validation(owned("配置包菜单类型不受支持")))
    }
}

impl MenuUpsert {
    pub open spec fn wf(&self) -> bool {
        &&& self.known.wf()
        &&& self.source_keys.wf()
        &&& self.position <= self.remaining@.len()
        &&& self.deferred@.len() <= self.position
    }

    /// Starts with the tenant's live menus (`existing`, by normalized stable key) and every
    /// package row in order.
    pub fn start(items: &[PortableMenu], existing: StrMap<KnownMenu>) -> (r: MenuUpsert)
        requires
            existing.wf(),
        ensures
            r.wf(),
            r.known == existing,
            r.source_keys.set() == Set::new(|k: Seq<char>| exists|i: int| 0 <= i < items@.len() && menu_key(#[trigger] items@[i]) == k),
            r.remaining@ == all_indices(items@.len()),
            r.position == 0,
            r.deferred@.len() == 0,
    {
        let mut keys = StrSet::new();
        let mut remaining: Vec<usize> = Vec::new();
        let mut i: usize = 0;
        while i < items.len()
            invariant
                i <= items.len(),
                keys.wf(),
                keys.set() == Set::new(|k: Seq<char>| exists|j: int| 0 <= j < i && menu_key(#[trigger] items@[j]) == k),
                remaining@ == all_indices(i as nat),
            decreases items.len() - i,
        {
            let ghost before = keys.set();
            keys.insert(normalize_stable_key(items[i].stable_key.as_str()));
            remaining.push(i);
            proof {
                assert(remaining@ =~= all_indices((i + 1) as nat));
                assert(keys.set() =~= Set::new(|k: Seq<char>| exists|j: int| 0 <= j < i + 1 && menu_key(#[trigger] items@[j]) == k)) by {
                    assert forall|k: Seq<char>| keys.set().contains(k) <==> exists|j: int| 0 <= j < i + 1 && menu_key(#[trigger] items@[j]) == k by {
                        if exists|j: int| 0 <= j < i + 1 && menu_key(#[trigger] items@[j]) == k {
                            let j = choose|j: int| 0 <= j < i + 1 && menu_key(#[trigger] items@[j]) == k;
                            if j < i {
                                assert(before.contains(k));
                            }
                        }
                        if before.contains(k) {
                            let j = choose|j: int| 0 <= j < i && menu_key(#[trigger] items@[j]) == k;
                            assert(0 <= j < i + 1);
                        }
                    }
                }
            }
            i = i + 1;
        }
        MenuUpsert { known: existing, source_keys: keys, remaining, position: 0, deferred: Vec::new() }
    }

    /// One step. Round ends as for permissions. Within a round, the next row: its parent (by
    /// stable key) must be known and not an action, or come with the package (then it waits),
    /// else it is a conflict; its permission code must name a target permission; its type's
    /// shape must hold; a row outside the changes is skipped; otherwise it is written under the
    /// known row's id or its new id and becomes known.
    pub fn step(&mut self, items: &[PortableMenu], permission_ids: &StrMap<i64>, changed: &StrSet, new_ids: &[i64]) -> (r:
        UpsertStep<MenuWrite>)
        requires
            old(self).wf(),
            permission_ids.wf(),
            changed.wf(),
            new_ids@.len() == items@.len(),
            forall|k: int| 0 <= k < old(self).remaining@.len() ==> (#[trigger] old(self).remaining@[k]) < items@.len(),
            forall|k: int| 0 <= k < old(self).deferred@.len() ==> (#[trigger] old(self).deferred@[k]) < items@.len(),
        ensures
            final(self).wf(),
            final(self).source_keys == old(self).source_keys,
            forall|k: int| 0 <= k < final(self).remaining@.len() ==> (#[trigger] final(self).remaining@[k]) < items@.len(),
            forall|k: int| 0 <= k < final(self).deferred@.len() ==> (#[trigger] final(self).deferred@[k]) < items@.len(),
            old(self).position == old(self).remaining@.len() ==> {
                &&& old(self).remaining@.len() == 0 ==> r is Done && *final(self) == *old(self)
                &&& old(self).remaining@.len() > 0 && old(self).deferred@.len() == old(self).remaining@.len() ==> r
                    is Fail && r->Fail_0 is Conflict
                &&& old(self).remaining@.len() > 0 && old(self).deferred@.len() != old(self).remaining@.len() ==> {
                    &&& r is NextRound
                    &&& final(self).remaining@ == old(self).deferred@
                    &&& final(self).position == 0
                    &&& final(self).deferred@.len() == 0
                    &&& final(self).known == old(self).known
                    &&& final(self).remaining@.len() < old(self).remaining@.len()
                }
            },
            old(self).position < old(self).remaining@.len() ==> ({
                let idx = old(self).remaining@[old(self).position as int];
                let item = items@[idx as int];
                let key = menu_key(item);
                let parent = opt_lower(item.parent_stable_key);
                let parent_row = match parent {
                    Some(p) => old(self).known.get_spec(p),
                    None => None,
                };
                let perm = bound_permission(item, *permission_ids);
                let old_row = old(self).known.get_spec(key);
                if parent_row matches Some(pr) && pr.menu_type@ == "F"@ {
                    r is Fail && r->Fail_0 is Validation
                } else if parent is Some && parent_row is None {
                    if old(self).source_keys.set().contains(parent.unwrap()) {
                        &&& r is Defer
                        &&& final(self).deferred@ == old(self).deferred@.push(idx)
                        &&& final(self).known == old(self).known
                        &&& final(self).remaining == old(self).remaining
                        &&& final(self).position == old(self).position + 1
                    } else {
                        r is Fail && r->Fail_0 is Conflict
                    }
                } else if item.permission_code is Some && perm is None {
                    r is Fail && r->Fail_0 is Conflict
                } else if !menu_shape_ok(item, perm is Some, parent_row is Some) {
                    r is Fail && r->Fail_0 is Validation
                } else if !changed.set().contains(key) {
                    &&& r is Skip
                    &&& final(self).known == old(self).known
                    &&& final(self).deferred == old(self).deferred
                    &&& final(self).remaining == old(self).remaining
                    &&& final(self).position == old(self).position + 1
                } else {
                    &&& r matches UpsertStep::Write(w) && {
                        &&& w.index == idx
                        &&& w.id == (match old_row { Some(o) => o.id, None => new_ids@[idx as int] })
                        &&& w.parent_id == (match parent_row { Some(p) => Some(p.id), None => None })
                        &&& w.perm_id == perm
                        &&& w.exists == old_row is Some
                        &&& final(self).known.get_spec(key) matches Some(k) && k.id == w.id && k.menu_type@ == item.menu_type@
                    }
                    &&& forall|y: Seq<char>| y != key ==> final(self).known.get_spec(y) == old(self).known.get_spec(y)
                    &&& final(self).deferred == old(self).deferred
                    &&& final(self).remaining == old(self).remaining
                    &&& final(self).position == old(self).position + 1
                }
            }),
    {
        if self.position == self.remaining.len() {
            if self.remaining.len() == 0 {
                return UpsertStep::Done;
            }
            if self.deferred.len() == self.remaining.len() {
                return UpsertStep::Fail(AppError::Conflict(owned("菜单父子层级存在循环或缺少父菜单")));
            }
            let mut next: Vec<usize> = Vec::new();
            std::mem::swap(&mut next, &mut self.deferred);
            self.remaining = next;
            self.position = 0;
            return UpsertStep::NextRound;
        }
        let idx = self.remaining[self.position];
        let item = &items[idx];
        let parent_id = match &item.parent_stable_key {
            Some(pk) => {
                let k = normalize_stable_key(pk.as_str());
                match self.known.get(k.as_str()) {
                    Some(p) => {
                        if str_eq(p.menu_type.as_str(), "F") {
                            let mut msg = owned("菜单 ");
                            push_str(&mut msg, item.stable_key.as_str());
                            push_str(&mut msg, " 不能将操作菜单作为父菜单");
                            return UpsertStep::Fail(AppError::Validation(msg));
                        }
                        Some(p.id)
                    },
                    None => {
                        if self.source_keys.contains(k.as_str()) {
                            self.deferred.push(idx);
                            self.position = self.position + 1;
                            return UpsertStep::Defer;
                        }
                        let mut msg = owned("菜单 ");
                        push_str(&mut msg, item.stable_key.as_str());
                        push_str(&mut msg, " 的父菜单不存在");
                        return UpsertStep::Fail(AppError::Conflict(msg));
                    },
                }
            },
            None => None,
        };
        let perm_id = match &item.permission_code {
            Some(code) => {
                let c = normalize_stable_key(code.as_str());
                match permission_ids.get(c.as_str()) {
                    Some(id) => Some(*id),
                    None => {
                        let mut msg = owned("菜单引用的权限 ");
                        push_str(&mut msg, code.as_str());
                        push_str(&mut msg, " 不存在");
                        return UpsertStep::Fail(AppError::Conflict(msg));
                    },
                }
            },
            None => None,
        };
        match check_menu_shape(item, perm_id.is_some(), parent_id.is_some()) {
            Ok(()) => {},
            Err(e) => {
                return UpsertStep::Fail(e);
            },
        }
        let key = normalize_stable_key(item.stable_key.as_str());
        if !changed.contains(key.as_str()) {
            self.position = self.position + 1;
            return UpsertStep::Skip;
        }
        let (id, exists) = match self.known.get(key.as_str()) {
            Some(o) => (o.id, true),
            None => (new_ids[idx], false),
        };
        self.known.upsert(key, KnownMenu { id, menu_type: owned(item.menu_type.as_str()) });
        self.position = self.position + 1;
        UpsertStep::Write(MenuWrite { index: idx, id, parent_id, perm_id, exists })
    }
}

/// The id the last of `ws` written under `key` got.
pub open spec fn menu_written_id(items: Seq<PortableMenu>, ws: Seq<MenuWrite>, key: Seq<char>) -> Option<i64>
    decreases ws.len(),
{
    if ws.len() == 0 {
        None
    } else if menu_key(items[ws.last().index as int]) == key {
        Some(ws.last().id)
    } else {
        menu_written_id(items, ws.drop_last(), key)
    }
}

/// The id a stable key has once `ws` were written over the live menus.
pub open spec fn menu_id_known(existing: StrMap<KnownMenu>, items: Seq<PortableMenu>, ws: Seq<MenuWrite>, key: Seq<char>) -> Option<i64> {
    match menu_written_id(items, ws, key) {
        Some(id) => Some(id),
        None => match existing.get_spec(key) {
            Some(k) => Some(k.id),
            None => None,
        },
    }
}

pub open spec fn menu_known_ids_match(
    known: StrMap<KnownMenu>,
    existing: StrMap<KnownMenu>,
    items: Seq<PortableMenu>,
    ws: Seq<MenuWrite>,
) -> bool {
    forall|y: Seq<char>| #[trigger] known.get_spec(y) is Some == menu_id_known(existing, items, ws, y) is Some && (
    known.get_spec(y) matches Some(k) ==> menu_id_known(existing, items, ws, y) == Some(k.id))
}

/// What a menu write records: the item is one of the changes and satisfies its type's shape;
/// it gets the id its key already has (after the writes before it) or its new id; its parent,
/// when it has one, is known by then and gives its id; its permission is the one its code
/// names.
pub open spec fn menu_write_ok(
    existing: StrMap<KnownMenu>,
    items: Seq<PortableMenu>,
    permission_ids: StrMap<i64>,
    changed: Set<Seq<char>>,
    new_ids: Seq<i64>,
    ws: Seq<MenuWrite>,
    j: int,
) -> bool {
    let w = ws[j];
    let before = ws.take(j);
    let item = items[w.index as int];
    &&& w.index < items.len()
    &&& changed.contains(menu_key(item))
    &&& w.id == (match menu_id_known(existing, items, before, menu_key(item)) {
        Some(id) => id,
        None => new_ids[w.index as int],
    })
    &&& w.exists == menu_id_known(existing, items, before, menu_key(item)) is Some
    &&& w.parent_id == (match opt_lower(item.parent_stable_key) {
        Some(p) => menu_id_known(existing, items, before, p),
        None => None,
    })
    &&& (item.parent_stable_key is Some ==> w.parent_id is Some)
    &&& w.perm_id == bound_permission(item, permission_ids)
    &&& menu_shape_ok(item, w.perm_id is Some, w.parent_id is Some)
}

/// The normalized stable key of a package menu's parent, if it names one.
pub open spec fn menu_parent_key(m: PortableMenu) -> Option<Seq<char>> {
    opt_lower(m.parent_stable_key)
}

/// The menu's parent, if it has one, is among `keys`.
pub open spec fn menu_parent_in(m: PortableMenu, keys: Set<Seq<char>>) -> bool {
    match menu_parent_key(m) {
        Some(k) => keys.contains(k),
        None => true,
    }
}

/// The stable keys known after `n` rounds of writing: the existing ones, then each round the
/// keys of the changed package menus whose parent was known after the round before.
pub open spec fn menu_keys_after(
    existing: StrMap<KnownMenu>,
    items: Seq<PortableMenu>,
    changed: Set<Seq<char>>,
    n: nat,
) -> Set<Seq<char>>
    decreases n,
{
    if n == 0 {
        Set::new(|k: Seq<char>| existing.get_spec(k) is Some)
    } else {
        let prev = menu_keys_after(existing, items, changed, (n - 1) as nat);
        prev.union(
            Set::new(
                |k: Seq<char>|
                    exists|i: int|
                        0 <= i < items.len() && changed.contains(#[trigger] menu_key(items[i])) && menu_key(items[i])
                            == k && menu_parent_in(items[i], prev),
            ),
        )
    }
}

/// A stable key becomes known after some number of rounds.
pub open spec fn menu_key_reachable(
    existing: StrMap<KnownMenu>,
    items: Seq<PortableMenu>,
    changed: Set<Seq<char>>,
    k: Seq<char>,
) -> bool {
    exists|n: nat| #[trigger] menu_keys_after(existing, items, changed, n).contains(k)
}

/// A changed menu whose parent is known after round `n` is known after round `n + 1`.
proof fn lemma_menu_key_step(
    existing: StrMap<KnownMenu>,
    items: Seq<PortableMenu>,
    changed: Set<Seq<char>>,
    i: int,
    n: nat,
)
    requires
        0 <= i < items.len(),
        changed.contains(menu_key(items[i])),
        menu_parent_in(items[i], menu_keys_after(existing, items, changed, n)),
    ensures
        menu_keys_after(existing, items, changed, n + 1).contains(menu_key(items[i])),
{
    let prev = menu_keys_after(existing, items, changed, n);
    assert(menu_keys_after(existing, items, changed, (n + 1) as nat) == prev.union(
        Set::new(
            |k: Seq<char>|
                exists|i: int|
                    0 <= i < items.len() && changed.contains(#[trigger] menu_key(items[i])) && menu_key(items[i]) == k
                        && menu_parent_in(items[i], prev),
        ),
    ));
}

/// Every key known after some rounds is an existing key or the key of a package menu.
proof fn lemma_menu_keys_after_origin(
    existing: StrMap<KnownMenu>,
    items: Seq<PortableMenu>,
    changed: Set<Seq<char>>,
    n: nat,
    k: Seq<char>,
)
    requires
        menu_keys_after(existing, items, changed, n).contains(k),
    ensures
        existing.get_spec(k) is Some || exists|i: int| 0 <= i < items.len() && #[trigger] menu_key(items[i]) == k,
    decreases n,
{
    if n > 0 {
        let prev = menu_keys_after(existing, items, changed, (n - 1) as nat);
        if !prev.contains(k) {
            let i = choose|i: int|
                0 <= i < items.len() && changed.contains(#[trigger] menu_key(items[i])) && menu_key(items[i]) == k
                    && menu_parent_in(items[i], prev);
            assert(menu_key(items[i]) == k);
        } else {
            lemma_menu_keys_after_origin(existing, items, changed, (n - 1) as nat, k);
        }
    }
}

/// A set holding the existing keys and closed under placing changed menus holds every key
/// known after any number of rounds.
proof fn lemma_menu_keys_after_within(
    existing: StrMap<KnownMenu>,
    items: Seq<PortableMenu>,
    changed: Set<Seq<char>>,
    s: Set<Seq<char>>,
    n: nat,
)
    requires
        forall|k: Seq<char>| existing.get_spec(k) is Some ==> #[trigger] s.contains(k),
        forall|i: int| 0 <= i < items.len() && changed.contains(menu_key(#[trigger] items[i])) && menu_parent_in(items[i], s)
            ==> s.contains(menu_key(items[i])),
    ensures
        menu_keys_after(existing, items, changed, n).subset_of(s),
    decreases n,
{
    if n > 0 {
        lemma_menu_keys_after_within(existing, items, changed, s, (n - 1) as nat);
        let prev = menu_keys_after(existing, items, changed, (n - 1) as nat);
        assert forall|k: Seq<char>| menu_keys_after(existing, items, changed, n).contains(k) implies s.contains(k) by {
            if !prev.contains(k) {
                let i = choose|i: int|
                    0 <= i < items.len() && changed.contains(#[trigger] menu_key(items[i])) && menu_key(items[i]) == k
                        && menu_parent_in(items[i], prev);
                match menu_parent_key(items[i]) {
                    Some(pk) => {
                        assert(prev.contains(pk));
                    },
                    None => {},
                }
                assert(menu_parent_in(items[i], s));
            }
        }
    }
}

/// What every package menu needs to be placed: its parent, if it names one, is an existing
/// menu or a changed package menu that can itself be placed; its permission code, if any,
/// names a target permission; and its type's shape holds.
pub open spec fn menus_placeable(
    existing: StrMap<KnownMenu>,
    items: Seq<PortableMenu>,
    changed: Set<Seq<char>>,
    permission_ids: StrMap<i64>,
) -> bool {
    &&& forall|i: int| 0 <= i < items.len() ==> (menu_parent_key(#[trigger] items[i]) matches Some(pk) ==> menu_key_reachable(
        existing,
        items,
        changed,
        pk,
    ))
    &&& forall|i: int| 0 <= i < items.len() ==> ((#[trigger] items[i]).permission_code is Some ==> bound_permission(items[i], permission_ids) is Some)
    &&& forall|i: int| 0 <= i < items.len() ==> menu_shape_ok(
        #[trigger] items[i],
        bound_permission(items[i], permission_ids) is Some,
        items[i].parent_stable_key is Some,
    )
}

/// No menu names a parent that is, or is changed into, an action.
pub open spec fn menu_parents_never_actions(existing: StrMap<KnownMenu>, items: Seq<PortableMenu>, changed: Set<Seq<char>>) -> bool {
    forall|i: int| 0 <= i < items.len() ==> (menu_parent_key(#[trigger] items[i]) matches Some(pk) ==> {
        &&& (existing.get_spec(pk) is Some ==> existing.get_spec(pk).unwrap().menu_type@ != "F"@)
        &&& forall|j: int| 0 <= j < items.len() && changed.contains(menu_key(#[trigger] items[j])) && menu_key(items[j]) == pk
            ==> items[j].menu_type@ != "F"@
    })
}

/// The key `pk` names, in some version the plan can see, a menu that is not an action: the
/// existing row, or a changed package menu with that key.
pub open spec fn menu_key_has_container(existing: StrMap<KnownMenu>, items: Seq<PortableMenu>, changed: Set<Seq<char>>, pk: Seq<char>) -> bool {
    (existing.get_spec(pk) is Some && existing.get_spec(pk).unwrap().menu_type@ != "F"@) || exists|j: int|
        0 <= j < items.len() && changed.contains(#[trigger] menu_key(items[j])) && menu_key(items[j]) == pk && items[j].menu_type@
            != "F"@
}

/// Every parent a menu names is, in some version, not an action.
pub open spec fn menu_parents_can_hold_children(existing: StrMap<KnownMenu>, items: Seq<PortableMenu>, changed: Set<Seq<char>>) -> bool {
    forall|i: int| 0 <= i < items.len() ==> (menu_parent_key(#[trigger] items[i]) matches Some(pk) ==> menu_key_has_container(
        existing,
        items,
        changed,
        pk,
    ))
}

/// Plans the upsert of a package's menus parent-first (see `MenuUpsert::step`), returning the
/// rows to save in order.
pub fn plan_menu_upserts(
    items: &[PortableMenu],
    existing: StrMap<KnownMenu>,
    permission_ids: &StrMap<i64>,
    changed: &StrSet,
    new_ids: &[i64],
) -> (r: AppResult<Vec<MenuWrite>>)
    requires
        existing.wf(),
        permission_ids.wf(),
        changed.wf(),
        new_ids@.len() == items@.len(),
    ensures
        r is Err ==> r->Err_0 is Validation || r->Err_0 is Conflict,
        r matches Ok(ws) ==> forall|j: int| 0 <= j < ws@.len() ==> menu_write_ok(existing, items@, *permission_ids, changed.set(), new_ids@, ws@, j),
        r matches Ok(ws) ==> forall|i: int| 0 <= i < items@.len() && changed.set().contains(menu_key(#[trigger] items@[i]))
            ==> exists|j: int| 0 <= j < ws@.len() && ws@[j].index == i,
        r matches Ok(ws) ==> forall|j: int, l: int| 0 <= j < l < ws@.len() ==> (#[trigger] ws@[j]).index != (#[trigger] ws@[l]).index,
        r is Ok ==> menus_placeable(existing, items@, changed.set(), *permission_ids),
        r is Ok ==> menu_parents_can_hold_children(existing, items@, changed.set()),
        menus_placeable(existing, items@, changed.set(), *permission_ids) && menu_parents_never_actions(existing, items@, changed.set())
            ==> r is Ok,
{
    let ghost ex = existing;
    let ghost n = items@.len();
    let mut up = MenuUpsert::start(items, existing);
    let mut writes: Vec<MenuWrite> = Vec::new();
    let ghost mut handled: Set<usize> = Set::empty();
    proof {
        assert forall|y: Seq<char>| (#[trigger] up.known.get_spec(y)) is Some implies menu_key_reachable(ex, items@, changed.set(), y) by {
            assert(menu_keys_after(ex, items@, changed.set(), 0).contains(y));
        }
        let rest = rest_of(up.remaining@, up.position as int);
        assert(rest =~= up.remaining@);
        assert(no_repeats(rest)) by {
            assert forall|a: int, b: int| 0 <= a < b < rest.len() implies (#[trigger] rest[a]) != (#[trigger] rest[b]) by {
                assert(b < items.len());
                assert(rest[a] == a as usize && rest[b] == b as usize);
            }
        }
        assert forall|i: usize| (i < n) == (handled.contains(i) || up.deferred@.contains(i) || rest_of(up.remaining@, up.position as int).contains(i)) by {
            if i < n {
                assert(rest[i as int] == i);
            }
            if rest.contains(i) {
                let k = choose|k: int| 0 <= k < rest.len() && rest[k] == i;
                assert(rest[k] == k as usize);
            }
        }
    }
    loop
        invariant
            up.wf(),
            changed.wf(),
            permission_ids.wf(),
            n == items@.len(),
            new_ids@.len() == items@.len(),
            forall|k: int| 0 <= k < up.remaining@.len() ==> (#[trigger] up.remaining@[k]) < items@.len(),
            forall|k: int| 0 <= k < up.deferred@.len() ==> (#[trigger] up.deferred@[k]) < items@.len(),
            ex == existing,
            menu_known_ids_match(up.known, ex, items@, writes@),
            forall|j: int| 0 <= j < writes@.len() ==> menu_write_ok(ex, items@, *permission_ids, changed.set(), new_ids@, writes@, j),
            forall|i: usize| (i < n) == (handled.contains(i) || up.deferred@.contains(i) || rest_of(up.remaining@, up.position as int).contains(i)),
            forall|i: usize| #[trigger] handled.contains(i) ==> !up.deferred@.contains(i) && !rest_of(up.remaining@, up.position as int).contains(i),
            forall|i: usize| #[trigger] up.deferred@.contains(i) ==> !rest_of(up.remaining@, up.position as int).contains(i),
            no_repeats(rest_of(up.remaining@, up.position as int)),
            no_repeats(up.deferred@),
            forall|j: int| 0 <= j < writes@.len() ==> handled.contains((#[trigger] writes@[j]).index),
            forall|j: int, l: int| 0 <= j < l < writes@.len() ==> (#[trigger] writes@[j]).index != (#[trigger] writes@[l]).index,
            forall|i: usize| #[trigger] handled.contains(i) && changed.set().contains(menu_key(items@[i as int])) ==> exists|j: int|
                0 <= j < writes@.len() && writes@[j].index == i,
            up.source_keys.set() == Set::new(|k: Seq<char>| exists|i: int| 0 <= i < items@.len() && menu_key(#[trigger] items@[i]) == k),
            forall|y: Seq<char>| ex.get_spec(y) is Some ==> (#[trigger] up.known.get_spec(y)) is Some,
            forall|y: Seq<char>| (#[trigger] up.known.get_spec(y)) is Some ==> menu_key_reachable(ex, items@, changed.set(), y),
            forall|y: Seq<char>| (#[trigger] up.known.get_spec(y)) is Some ==> (ex.get_spec(y) is Some && up.known.get_spec(y).unwrap().menu_type@
                == ex.get_spec(y).unwrap().menu_type@) || exists|i: int|
                0 <= i < n && changed.set().contains(#[trigger] menu_key(items@[i])) && menu_key(items@[i]) == y && items@[i].menu_type@
                    == up.known.get_spec(y).unwrap().menu_type@,
            forall|i: usize| #[trigger] handled.contains(i) ==> {
                &&& (menu_parent_key(items@[i as int]) is Some ==> menu_key_reachable(ex, items@, changed.set(), menu_parent_key(items@[i as int]).unwrap()))
                &&& (items@[i as int].permission_code is Some ==> bound_permission(items@[i as int], *permission_ids) is Some)
                &&& menu_shape_ok(items@[i as int], bound_permission(items@[i as int], *permission_ids) is Some, items@[i as int].parent_stable_key is Some)
                &&& (menu_parent_key(items@[i as int]) is Some ==> menu_key_has_container(ex, items@, changed.set(), menu_parent_key(items@[i as int]).unwrap()))
            },
            forall|i: usize| #[trigger] handled.contains(i) && changed.set().contains(menu_key(items@[i as int])) ==> up.known.get_spec(
                menu_key(items@[i as int]),
            ) is Some,
            up.deferred@.len() == up.position ==> forall|k: int| 0 <= k < up.deferred@.len() ==> menu_parent_key(
                items@[(#[trigger] up.deferred@[k]) as int],
            ) is Some && up.known.get_spec(menu_parent_key(items@[up.deferred@[k] as int]).unwrap()) is None,
        decreases up.remaining@.len(), up.remaining@.len() - up.position,
    {
        let ghost before_known = up.known;
        let ghost before_writes = writes@;
        let ghost before_pos = up.position;
        let ghost before_remaining = up.remaining@;
        let ghost before_deferred = up.deferred@;
        let ghost r0 = rest_of(before_remaining, before_pos as int);
        let step = up.step(items, permission_ids, changed, new_ids);
        proof {
            if before_pos < before_remaining.len() {
                lemma_rest_split(before_remaining, before_pos as int);
                let idx = before_remaining[before_pos as int];
                let r1 = rest_of(before_remaining, before_pos + 1);
                assert forall|i: usize| before_deferred.contains(i) || i == idx implies !r1.contains(i) by {
                    if before_deferred.contains(i) {
                        assert(!r0.contains(i));
                    }
                }
            }
        }
        match step {
            UpsertStep::Write(w) => {
                proof {
                    let idx = before_remaining[before_pos as int];
                    let key = menu_key(items@[idx as int]);
                    let ws = before_writes.push(w);
                    assert(ws.take(before_writes.len() as int) =~= before_writes);
                    assert(menu_written_id(items@, ws, key) == Some(w.id));
                    assert forall|y: Seq<char>| y != key implies menu_written_id(items@, ws, y) == menu_written_id(items@, before_writes, y) by {
                        assert(ws.drop_last() =~= before_writes);
                    }
                    match items@[idx as int].parent_stable_key {
                        Some(pk) => {
                            assert(before_known.get_spec(lower_seq(pk@)) is Some);
                        },
                        None => {},
                    }
                    assert(menu_write_ok(ex, items@, *permission_ids, changed.set(), new_ids@, ws, before_writes.len() as int));
                    assert forall|j: int| 0 <= j < before_writes.len() implies menu_write_ok(ex, items@, *permission_ids, changed.set(), new_ids@, ws, j) by {
                        assert(menu_write_ok(ex, items@, *permission_ids, changed.set(), new_ids@, before_writes, j));
                        assert(ws.take(j) =~= before_writes.take(j));
                        assert(ws[j] == before_writes[j]);
                    }
                    assert(!handled.contains(idx));
                    handled = handled.insert(idx);
                    assert forall|j: int| 0 <= j < ws.len() implies handled.contains((#[trigger] ws[j]).index) by {
                        if j < before_writes.len() {
                            assert(ws[j] == before_writes[j]);
                        }
                    }
                    assert forall|i: usize| #[trigger] handled.contains(i) && changed.set().contains(menu_key(items@[i as int]))
                        implies exists|j: int| 0 <= j < ws.len() && ws[j].index == i by {
                        if i == idx {
                            assert(ws[before_writes.len() as int].index == i);
                        } else {
                            let j = choose|j: int| 0 <= j < before_writes.len() && before_writes[j].index == i;
                            assert(ws[j] == before_writes[j]);
                        }
                    }
                    assert(menu_key_reachable(ex, items@, changed.set(), key)) by {
                        match menu_parent_key(items@[idx as int]) {
                            Some(pk) => {
                                assert(before_known.get_spec(pk) is Some);
                                let n0 = choose|n0: nat| #[trigger] menu_keys_after(ex, items@, changed.set(), n0).contains(pk);
                                lemma_menu_key_step(ex, items@, changed.set(), idx as int, n0);
                                assert(menu_keys_after(ex, items@, changed.set(), n0 + 1).contains(key));
                            },
                            None => {
                                lemma_menu_key_step(ex, items@, changed.set(), idx as int, 0);
                                assert(menu_keys_after(ex, items@, changed.set(), 1).contains(key));
                            },
                        }
                    }
                }
                writes.push(w);
            },
            UpsertStep::Fail(e) => {
                proof {
                    if menus_placeable(ex, items@, changed.set(), *permission_ids) && menu_parents_never_actions(ex, items@, changed.set()) {
                        if before_pos == before_remaining.len() {
                            let d = before_deferred[0];
                            assert(d < items.len());
                            let pk = menu_parent_key(items@[d as int]).unwrap();
                            assert(before_known.get_spec(pk) is None);
                            assert(menu_key_reachable(ex, items@, changed.set(), pk));
                            let n0 = choose|n0: nat| #[trigger] menu_keys_after(ex, items@, changed.set(), n0).contains(pk);
                            let sk = Set::new(|k: Seq<char>| before_known.get_spec(k) is Some);
                            assert forall|k: Seq<char>| ex.get_spec(k) is Some implies #[trigger] sk.contains(k) by {
                                assert(before_known.get_spec(k) is Some);
                            }
                            assert forall|i: int|
                                0 <= i < items@.len() && changed.set().contains(menu_key(#[trigger] items@[i])) && menu_parent_in(items@[i], sk)
                                    implies sk.contains(menu_key(items@[i])) by {
                                let u = i as usize;
                                assert(u < n);
                                if before_deferred.contains(u) {
                                    let k = choose|k: int| 0 <= k < before_deferred.len() && before_deferred[k] == u;
                                    assert(menu_parent_key(items@[before_deferred[k] as int]) is Some);
                                } else {
                                    assert(!rest_of(before_remaining, before_pos as int).contains(u));
                                    assert(handled.contains(u));
                                    assert(before_known.get_spec(menu_key(items@[u as int])) is Some);
                                }
                            }
                            lemma_menu_keys_after_within(ex, items@, changed.set(), sk, n0);
                            assert(sk.contains(pk));
                            assert(false);
                        } else {
                            let idx = before_remaining[before_pos as int];
                            assert(idx < items.len());
                            let item = items@[idx as int];
                            let parent = menu_parent_key(item);
                            if parent is Some && before_known.get_spec(parent.unwrap()) is Some {
                                let pk = parent.unwrap();
                                let pr = before_known.get_spec(pk).unwrap();
                                if pr.menu_type@ == "F"@ {
                                    if !(ex.get_spec(pk) is Some && pr.menu_type@ == ex.get_spec(pk).unwrap().menu_type@) {
                                        let j = choose|j: int|
                                            0 <= j < n && changed.set().contains(#[trigger] menu_key(items@[j])) && menu_key(items@[j]) == pk
                                                && items@[j].menu_type@ == pr.menu_type@;
                                        assert(items@[j].menu_type@ != "F"@);
                                    }
                                    assert(false);
                                }
                            }
                            if parent is Some && before_known.get_spec(parent.unwrap()) is None {
                                let pk = parent.unwrap();
                                assert(menu_key_reachable(ex, items@, changed.set(), pk));
                                let n0 = choose|n0: nat| #[trigger] menu_keys_after(ex, items@, changed.set(), n0).contains(pk);
                                lemma_menu_keys_after_origin(ex, items@, changed.set(), n0, pk);
                                if ex.get_spec(pk) is None {
                                    let i = choose|i: int| 0 <= i < items@.len() && #[trigger] menu_key(items@[i]) == pk;
                                    assert(up.source_keys.set().contains(pk));
                                }
                                assert(false);
                            }
                            assert(item.permission_code is Some ==> bound_permission(item, *permission_ids) is Some);
                            assert(menu_shape_ok(item, bound_permission(item, *permission_ids) is Some, item.parent_stable_key is Some));
                            assert(false);
                        }
                    }
                }
                return Err(e);
            },
            UpsertStep::Done => {
                proof {
                    assert(rest_of(up.remaining@, up.position as int) =~= Seq::<usize>::empty());
                    assert(up.deferred@ =~= Seq::<usize>::empty());
                    assert forall|i: int| 0 <= i < items@.len() && changed.set().contains(menu_key(#[trigger] items@[i])) implies exists|j: int|
                        0 <= j < writes@.len() && writes@[j].index == i by {
                        assert(i < items.len());
                        let u = i as usize;
                        assert(u < n);
                        assert(handled.contains(u));
                    }
                    assert(menus_placeable(ex, items@, changed.set(), *permission_ids)) by {
                        assert forall|i: int| 0 <= i < items@.len() implies (menu_parent_key(#[trigger] items@[i]) matches Some(pk)
                            ==> menu_key_reachable(ex, items@, changed.set(), pk)) by {
                            assert(i < items.len());
                            let u = i as usize;
                            assert(u < n && u as int == i);
                            assert(handled.contains(u));
                        }
                        assert forall|i: int| 0 <= i < items@.len() implies ((#[trigger] items@[i]).permission_code is Some
                            ==> bound_permission(items@[i], *permission_ids) is Some) by {
                            assert(i < items.len());
                            let u = i as usize;
                            assert(u < n && u as int == i);
                            assert(handled.contains(u));
                        }
                        assert forall|i: int| 0 <= i < items@.len() implies menu_shape_ok(
                            #[trigger] items@[i],
                            bound_permission(items@[i], *permission_ids) is Some,
                            items@[i].parent_stable_key is Some,
                        ) by {
                            assert(i < items.len());
                            let u = i as usize;
                            assert(u < n && u as int == i);
                            assert(handled.contains(u));
                        }
                    }
                    assert(menu_parents_can_hold_children(ex, items@, changed.set())) by {
                        assert forall|i: int| 0 <= i < items@.len() implies (menu_parent_key(#[trigger] items@[i]) matches Some(pk)
                            ==> menu_key_has_container(ex, items@, changed.set(), pk)) by {
                            assert(i < items.len());
                            let u = i as usize;
                            assert(u < n && u as int == i);
                            assert(handled.contains(u));
                        }
                    }
                }
                return Ok(writes);
            },
            UpsertStep::Skip => {
                proof {
                    let idx = before_remaining[before_pos as int];
                    assert(!handled.contains(idx));
                    handled = handled.insert(idx);
                }
            },
            UpsertStep::Defer => {
                proof {
                    let idx = before_remaining[before_pos as int];
                    assert(up.deferred@ == before_deferred.push(idx));
                    assert forall|i: usize| up.deferred@.contains(i) <==> before_deferred.contains(i) || i == idx by {
                        if up.deferred@.contains(i) {
                            let k = choose|k: int| 0 <= k < up.deferred@.len() && up.deferred@[k] == i;
                            if k < before_deferred.len() {
                                assert(before_deferred[k] == i);
                            }
                        }
                        if before_deferred.contains(i) {
                            let k = choose|k: int| 0 <= k < before_deferred.len() && before_deferred[k] == i;
                            assert(up.deferred@[k] == i);
                        }
                        if i == idx {
                            assert(up.deferred@[before_deferred.len() as int] == i);
                        }
                    }
                    assert(!before_deferred.contains(idx));
                    assert(no_repeats(up.deferred@)) by {
                        assert forall|a: int, b: int| 0 <= a < b < up.deferred@.len() implies (#[trigger] up.deferred@[a])
                            != (#[trigger] up.deferred@[b]) by {
                            if b == before_deferred.len() {
                                assert(before_deferred.contains(up.deferred@[a]));
                            } else {
                                assert(up.deferred@[a] == before_deferred[a] && up.deferred@[b] == before_deferred[b]);
                            }
                        }
                    }
                }
            },
            UpsertStep::NextRound => {
                proof {
                    assert(r0 =~= Seq::<usize>::empty());
                    assert(rest_of(up.remaining@, up.position as int) =~= up.remaining@);
                    assert(up.deferred@ =~= Seq::<usize>::empty());
                }
            },
        }
    }
}


} // verus!

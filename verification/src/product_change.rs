//! What a change of a tenant's product does: which capabilities it turns on or off or
//! reconfigures, which menus and permissions come and go with them, and what it warns about.
use vstd::prelude::*;

use crate::crypto::{hex_digit, hex_seq, sha256, sha256_hex};
use crate::error::{AppError, AppResult};
use crate::product::{CapabilityOverrideInput, SERVICE_ACCOUNTS_CAPABILITY, service_account_permissions,
    service_account_routes, service_accounts_descriptor};
use crate::strset::{StrSet, difference_sorted, sorted_strict, views};
use crate::text::{owned, push_signed_decimal, push_str, signed_decimal, str_eq};

verus! {

pub const WARNING_PLAN_VERSION_CHANGE: &'static str = "product_plan_version_will_change";
pub const WARNING_REFRESH: &'static str = "authorization_and_navigation_will_refresh";

/// A capability as the tenant has it. `config` is compact JSON.
pub struct EffectiveCapabilityVo {
    pub capability_code: String,
    pub name: String,
    pub enabled: bool,
    pub entitled: bool,
    pub deployment_enabled: bool,
    pub source: String,
    pub variant_code: Option<String>,
    pub schema_version: Option<i32>,
    pub config: Option<String>,
}

/// The product a tenant runs under: its plan version and effective capabilities.
pub struct ProductContextVo {
    pub tenant_id: String,
    pub runtime_epoch: String,
    pub plan_key: String,
    pub plan_name: String,
    pub plan_version_id: String,
    pub plan_version: i32,
    pub capabilities: Vec<EffectiveCapabilityVo>,
}

/// A capability that stays but changes.
pub struct ProductCapabilityChangeVo {
    pub capability_code: String,
    pub before: EffectiveCapabilityVo,
    pub after: EffectiveCapabilityVo,
}

/// The difference between two product contexts.
pub struct ProductChangeDiff {
    pub capability_additions: Vec<String>,
    pub capability_removals: Vec<String>,
    pub capability_changes: Vec<ProductCapabilityChangeVo>,
    pub menu_additions: Vec<String>,
    pub menu_removals: Vec<String>,
    pub permission_additions: Vec<String>,
    pub permission_removals: Vec<String>,
    pub warnings: Vec<String>,
}

pub open spec fn opt_view(o: Option<String>) -> Option<Seq<char>> {
    match o {
        Some(s) => Some(s@),
        None => None,
    }
}

/// What a capability says, field by field.
pub type CapabilityView = (Seq<char>, Seq<char>, bool, bool, bool, Seq<char>, Option<Seq<char>>, Option<i32>, Option<Seq<char>>);

pub open spec fn cap_view(c: EffectiveCapabilityVo) -> CapabilityView {
    (
        c.capability_code@,
        c.name@,
        c.enabled,
        c.entitled,
        c.deployment_enabled,
        c.source@,
        opt_view(c.variant_code),
        c.schema_version,
        opt_view(c.config),
    )
}

fn opt_eq(a: &Option<String>, b: &Option<String>) -> (r: bool)
    ensures
        r == (opt_view(*a) == opt_view(*b)),
{
    match (a, b) {
        (Some(x), Some(y)) => str_eq(x.as_str(), y.as_str()),
        (None, None) => true,
        _ => false,
    }
}

fn opt_copy(a: &Option<String>) -> (r: Option<String>)
    ensures
        opt_view(r) == opt_view(*a),
{
    match a {
        Some(x) => Some(owned(x.as_str())),
        None => None,
    }
}

/// Two capabilities say the same.
pub fn same_capability(a: &EffectiveCapabilityVo, b: &EffectiveCapabilityVo) -> (r: bool)
    ensures
        r == (cap_view(*a) == cap_view(*b)),
{
    str_eq(a.capability_code.as_str(), b.capability_code.as_str()) && str_eq(a.name.as_str(), b.name.as_str())
        && a.enabled == b.enabled && a.entitled == b.entitled && a.deployment_enabled == b.deployment_enabled
        && str_eq(a.source.as_str(), b.source.as_str()) && opt_eq(&a.variant_code, &b.variant_code)
        && a.schema_version == b.schema_version && opt_eq(&a.config, &b.config)
}

fn copy_capability(c: &EffectiveCapabilityVo) -> (r: EffectiveCapabilityVo)
    ensures
        cap_view(r) == cap_view(*c),
{
    EffectiveCapabilityVo {
        capability_code: owned(c.capability_code.as_str()),
        name: owned(c.name.as_str()),
        enabled: c.enabled,
        entitled: c.entitled,
        deployment_enabled: c.deployment_enabled,
        source: owned(c.source.as_str()),
        variant_code: opt_copy(&c.variant_code),
        schema_version: c.schema_version,
        config: opt_copy(&c.config),
    }
}

pub open spec fn change_view(c: ProductCapabilityChangeVo) -> (Seq<char>, CapabilityView, CapabilityView) {
    (c.capability_code@, cap_view(c.before), cap_view(c.after))
}

pub open spec fn change_views(cs: Seq<ProductCapabilityChangeVo>) -> Seq<(Seq<char>, CapabilityView, CapabilityView)> {
    cs.map_values(|c: ProductCapabilityChangeVo| change_view(c))
}

/// The changes among the first `n` capability pairs (the two lists taken position by
/// position); with `enabled_only`, only those enabled on both sides.
pub open spec fn spec_changes(
    before: Seq<EffectiveCapabilityVo>,
    after: Seq<EffectiveCapabilityVo>,
    n: nat,
    enabled_only: bool,
) -> Seq<(Seq<char>, CapabilityView, CapabilityView)>
    decreases n,
{
    if n == 0 {
        Seq::empty()
    } else {
        let prev = spec_changes(before, after, (n - 1) as nat, enabled_only);
        let b = before[n - 1];
        let a = after[n - 1];
        if cap_view(b) != cap_view(a) && (!enabled_only || (b.enabled && a.enabled)) {
            prev.push((b.capability_code@, cap_view(b), cap_view(a)))
        } else {
            prev
        }
    }
}

pub open spec fn min_len(a: nat, b: nat) -> nat {
    if a <= b {
        a
    } else {
        b
    }
}

fn changes(before: &ProductContextVo, after: &ProductContextVo, enabled_only: bool) -> (r: Vec<ProductCapabilityChangeVo>)
    ensures
        change_views(r@) == spec_changes(
            before.capabilities@,
            after.capabilities@,
            min_len(before.capabilities@.len(), after.capabilities@.len()),
            enabled_only,
        ),
{
    let n = if before.capabilities.len() <= after.capabilities.len() {
        before.capabilities.len()
    } else {
        after.capabilities.len()
    };
    let mut r: Vec<ProductCapabilityChangeVo> = Vec::new();
    let mut i: usize = 0;
    while i < n
        invariant
            i <= n,
            n == min_len(before.capabilities@.len(), after.capabilities@.len()),
            change_views(r@) == spec_changes(before.capabilities@, after.capabilities@, i as nat, enabled_only),
        decreases n - i,
    {
        let b = &before.capabilities[i];
        let a = &after.capabilities[i];
        if !same_capability(b, a) && (!enabled_only || (b.enabled && a.enabled)) {
            let c = ProductCapabilityChangeVo {
                capability_code: owned(b.capability_code.as_str()),
                before: copy_capability(b),
                after: copy_capability(a),
            };
            let ghost prev = r@;
            r.push(c);
            proof {
                assert(change_views(r@) =~= change_views(prev).push(change_view(c)));
            }
        }
        i = i + 1;
    }
    r
}

/// The capabilities that differ between the two contexts, compared position by position.
pub fn capability_changes(before: &ProductContextVo, after: &ProductContextVo) -> (r: Vec<ProductCapabilityChangeVo>)
    ensures
        change_views(r@) == spec_changes(
            before.capabilities@,
            after.capabilities@,
            min_len(before.capabilities@.len(), after.capabilities@.len()),
            false,
        ),
{
    changes(before, after, false)
}

/// The codes of the enabled capabilities.
pub open spec fn enabled_codes(caps: Seq<EffectiveCapabilityVo>) -> Set<Seq<char>> {
    Set::new(|x: Seq<char>| exists|i: int| 0 <= i < caps.len() && #[trigger] caps[i].enabled && caps[i].capability_code@ == x)
}

fn enabled_set(caps: &Vec<EffectiveCapabilityVo>) -> (r: StrSet)
    ensures
        r.wf(),
        r.set() == enabled_codes(caps@),
{
    let mut r = StrSet::new();
    let mut i: usize = 0;
    while i < caps.len()
        invariant
            i <= caps.len(),
            r.wf(),
            r.set() == Set::new(|x: Seq<char>| exists|k: int| 0 <= k < i && #[trigger] caps@[k].enabled && caps@[k].capability_code@ == x),
        decreases caps.len() - i,
    {
        if caps[i].enabled {
            r.insert(owned(caps[i].capability_code.as_str()));
        }
        proof {
            assert(r.set() =~= Set::new(|x: Seq<char>| exists|k: int| 0 <= k < i + 1 && #[trigger] caps@[k].enabled && caps@[k].capability_code@ == x)) by {
                assert forall|x: Seq<char>| r.set().contains(x) <==> exists|k: int| 0 <= k < i + 1 && #[trigger] caps@[k].enabled && caps@[k].capability_code@ == x by {
                    if exists|k: int| 0 <= k < i + 1 && #[trigger] caps@[k].enabled && caps@[k].capability_code@ == x {
                        let k = choose|k: int| 0 <= k < i + 1 && #[trigger] caps@[k].enabled && caps@[k].capability_code@ == x;
                        if k < i {
                            assert(exists|kk: int| 0 <= kk < i && #[trigger] caps@[kk].enabled && caps@[kk].capability_code@ == x);
                        }
                    }
                }
            }
        }
        i = i + 1;
    }
    proof {
        assert(r.set() =~= enabled_codes(caps@));
    }
    r
}

/// The menu routes of the enabled capabilities (of the catalog compiled in).
pub open spec fn enabled_routes(enabled: Set<Seq<char>>) -> Set<Seq<char>> {
    if enabled.contains(SERVICE_ACCOUNTS_CAPABILITY@) {
        service_account_routes().to_set()
    } else {
        Set::empty()
    }
}

/// The permissions of the enabled capabilities (of the catalog compiled in).
pub open spec fn enabled_permissions(enabled: Set<Seq<char>>) -> Set<Seq<char>> {
    if enabled.contains(SERVICE_ACCOUNTS_CAPABILITY@) {
        service_account_permissions().to_set()
    } else {
        Set::empty()
    }
}

/// The catalog's routes and permissions of the enabled capabilities.
fn descriptor_values(enabled: &StrSet) -> (r: (StrSet, StrSet))
    requires
        enabled.wf(),
    ensures
        r.0.wf() && r.1.wf(),
        r.0.set() == enabled_routes(enabled.set()),
        r.1.set() == enabled_permissions(enabled.set()),
{
    if enabled.contains(SERVICE_ACCOUNTS_CAPABILITY) {
        let d = service_accounts_descriptor();
        let routes = StrSet::from_strings(d.route_keys);
        let permissions = StrSet::from_strings(d.permission_codes);
        (routes, permissions)
    } else {
        let routes = StrSet::new();
        let permissions = StrSet::new();
        proof {
            assert(routes.set() =~= Set::<Seq<char>>::empty());
            assert(permissions.set() =~= Set::<Seq<char>>::empty());
        }
        (routes, permissions)
    }
}

/// The strings of a vector in increasing order, and as a set equal to `s`.
pub open spec fn lists(v: Seq<String>, s: Set<Seq<char>>) -> bool {
    sorted_strict(views(v)) && forall|x: Seq<char>| views(v).contains(x) <==> s.contains(x)
}

/// The difference a product change makes: capabilities newly enabled or no longer enabled
/// (by code, in increasing order), capabilities enabled on both sides that change, the menus
/// and permissions their catalog entries bring or take away, and the warnings: a different plan
/// version, and a refresh of authorization and navigation whenever capabilities change.
pub fn product_change_diff(before: &ProductContextVo, after: &ProductContextVo) -> (r: ProductChangeDiff)
    ensures
        ({
            let be = enabled_codes(before.capabilities@);
            let ae = enabled_codes(after.capabilities@);
            &&& lists(r.capability_additions@, ae.difference(be))
            &&& lists(r.capability_removals@, be.difference(ae))
            &&& change_views(r.capability_changes@) == spec_changes(
                before.capabilities@,
                after.capabilities@,
                min_len(before.capabilities@.len(), after.capabilities@.len()),
                true,
            )
            &&& lists(r.menu_additions@, enabled_routes(ae).difference(enabled_routes(be)))
            &&& lists(r.menu_removals@, enabled_routes(be).difference(enabled_routes(ae)))
            &&& lists(r.permission_additions@, enabled_permissions(ae).difference(enabled_permissions(be)))
            &&& lists(r.permission_removals@, enabled_permissions(be).difference(enabled_permissions(ae)))
            &&& views(r.warnings@) == (if before.plan_version_id@ != after.plan_version_id@ {
                seq![WARNING_PLAN_VERSION_CHANGE@]
            } else {
                Seq::empty()
            }) + (if r.capability_additions@.len() > 0 || r.capability_removals@.len() > 0
                || r.capability_changes@.len() > 0 {
                seq![WARNING_REFRESH@]
            } else {
                Seq::empty()
            })
        }),
        forall|j: int|
            0 <= j < r.capability_changes@.len() ==> (#[trigger] r.capability_changes@[j]).before.enabled
                && r.capability_changes@[j].after.enabled,
{
    let before_enabled = enabled_set(&before.capabilities);
    let after_enabled = enabled_set(&after.capabilities);
    let capability_additions = difference_sorted(&after_enabled, &before_enabled);
    let capability_removals = difference_sorted(&before_enabled, &after_enabled);
    let capability_changes = changes(before, after, true);
    let (before_routes, before_permissions) = descriptor_values(&before_enabled);
    let (after_routes, after_permissions) = descriptor_values(&after_enabled);
    let menu_additions = difference_sorted(&after_routes, &before_routes);
    let menu_removals = difference_sorted(&before_routes, &after_routes);
    let permission_additions = difference_sorted(&after_permissions, &before_permissions);
    let permission_removals = difference_sorted(&before_permissions, &after_permissions);
    let mut warnings: Vec<String> = Vec::new();
    let version_changes = !str_eq(before.plan_version_id.as_str(), after.plan_version_id.as_str());
    if version_changes {
        warnings.push(owned(WARNING_PLAN_VERSION_CHANGE));
    }
    let refresh = capability_additions.len() > 0 || capability_removals.len() > 0 || capability_changes.len() > 0;
    if refresh {
        warnings.push(owned(WARNING_REFRESH));
    }
    proof {
        let first: Seq<Seq<char>> = if version_changes {
            seq![WARNING_PLAN_VERSION_CHANGE@]
        } else {
            Seq::empty()
        };
        let second: Seq<Seq<char>> = if refresh {
            seq![WARNING_REFRESH@]
        } else {
            Seq::empty()
        };
        assert(views(warnings@) =~= first + second);
        law_changes_are_differing_capabilities(
            before.capabilities@,
            after.capabilities@,
            min_len(before.capabilities@.len(), after.capabilities@.len()),
            true,
        );
        assert forall|j: int| 0 <= j < capability_changes@.len() implies (#[trigger] capability_changes@[j]).before.enabled
            && capability_changes@[j].after.enabled by {
            assert(change_views(capability_changes@)[j] == change_view(capability_changes@[j]));
        }
    }
    ProductChangeDiff {
        capability_additions,
        capability_removals,
        capability_changes,
        menu_additions,
        menu_removals,
        permission_additions,
        permission_removals,
        warnings,
    }
}


proof fn lemma_no_changes_against_itself(caps: Seq<EffectiveCapabilityVo>, n: nat, enabled_only: bool)
    requires
        n <= caps.len(),
    ensures
        spec_changes(caps, caps, n, enabled_only) == Seq::<(Seq<char>, CapabilityView, CapabilityView)>::empty(),
    decreases n,
{
    if n > 0 {
        lemma_no_changes_against_itself(caps, (n - 1) as nat, enabled_only);
    }
}

/// Each change found among the first `n` positions is a capability that differs between the
/// two sides at some position, reported with its code and both versions; with `enabled_only`,
/// that capability is enabled both before and after, so one switched on or off is never a
/// change (it is an addition or a removal); and each position that differs (and, with
/// `enabled_only`, is enabled on both sides) is reported.
pub proof fn law_changes_are_differing_capabilities(
    before: Seq<EffectiveCapabilityVo>,
    after: Seq<EffectiveCapabilityVo>,
    n: nat,
    enabled_only: bool,
)
    requires
        n <= before.len(),
        n <= after.len(),
    ensures
        ({
            let cs = spec_changes(before, after, n, enabled_only);
            &&& cs.len() <= n
            &&& forall|j: int|
                0 <= j < cs.len() ==> exists|i: int|
                    0 <= i < n && #[trigger] cs[j] == (before[i].capability_code@, cap_view(before[i]), cap_view(
                        after[i],
                    )) && cap_view(before[i]) != cap_view(after[i]) && (enabled_only ==> before[i].enabled
                        && after[i].enabled)
            &&& forall|i: int|
                0 <= i < n && cap_view(#[trigger] before[i]) != cap_view(after[i]) && (enabled_only
                    ==> before[i].enabled && after[i].enabled) ==> cs.contains(
                    (before[i].capability_code@, cap_view(before[i]), cap_view(after[i])),
                )
        }),
    decreases n,
{
    if n > 0 {
        law_changes_are_differing_capabilities(before, after, (n - 1) as nat, enabled_only);
        let prev = spec_changes(before, after, (n - 1) as nat, enabled_only);
        let cs = spec_changes(before, after, n, enabled_only);
        let m = n - 1;
        assert forall|j: int| 0 <= j < cs.len() implies exists|i: int|
            0 <= i < n && #[trigger] cs[j] == (before[i].capability_code@, cap_view(before[i]), cap_view(after[i]))
                && cap_view(before[i]) != cap_view(after[i]) && (enabled_only ==> before[i].enabled
                && after[i].enabled) by {
            if j < prev.len() {
                assert(cs[j] == prev[j]);
            } else {
                assert(cs[j] == (before[m].capability_code@, cap_view(before[m]), cap_view(after[m])));
            }
        }
        assert forall|i: int|
            0 <= i < n && cap_view(#[trigger] before[i]) != cap_view(after[i]) && (enabled_only ==> before[i].enabled
                && after[i].enabled) implies cs.contains(
            (before[i].capability_code@, cap_view(before[i]), cap_view(after[i])),
        ) by {
            let e = (before[i].capability_code@, cap_view(before[i]), cap_view(after[i]));
            if i < m {
                assert(prev.contains(e));
                let k = choose|k: int| 0 <= k < prev.len() && prev[k] == e;
                assert(cs[k] == prev[k]);
            } else {
                assert(cs[cs.len() - 1] == e);
            }
        }
    }
}

/// Switching off one enabled capability (codes being distinct, nothing else changing) makes
/// it the only removal, with no addition and no capability change reported; switching it back
/// on (the same two sets the other way round) makes it the only addition, again with no
/// change.
pub proof fn law_switched_capability_is_added_or_removed_not_changed(caps: Seq<EffectiveCapabilityVo>, i: int)
    requires
        0 <= i < caps.len(),
        caps[i].enabled,
        forall|j: int, k: int|
            0 <= j < k < caps.len() ==> (#[trigger] caps[j]).capability_code@ != (#[trigger] caps[k]).capability_code@,
    ensures
        ({
            let off = caps.update(i, EffectiveCapabilityVo { enabled: false, ..caps[i] });
            let code = caps[i].capability_code@;
            &&& enabled_codes(caps).difference(enabled_codes(off)) == set![code]
            &&& enabled_codes(off).difference(enabled_codes(caps)) == Set::<Seq<char>>::empty()
            &&& spec_changes(caps, off, caps.len(), true).len() == 0
            &&& spec_changes(off, caps, caps.len(), true).len() == 0
        }),
{
    let off = caps.update(i, EffectiveCapabilityVo { enabled: false, ..caps[i] });
    let code = caps[i].capability_code@;
    let be = enabled_codes(caps);
    let ae = enabled_codes(off);
    assert(off[i].capability_code@ == code);
    assert(be.contains(code));
    assert(!ae.contains(code)) by {
        if ae.contains(code) {
            let k = choose|k: int| 0 <= k < off.len() && #[trigger] off[k].enabled && off[k].capability_code@ == code;
            assert(k != i);
            assert(off[k] == caps[k]);
            if k < i {
                assert(caps[k].capability_code@ != caps[i].capability_code@);
            } else {
                assert(caps[i].capability_code@ != caps[k].capability_code@);
            }
        }
    }
    assert(ae.difference(be) =~= Set::<Seq<char>>::empty()) by {
        assert forall|x: Seq<char>| ae.contains(x) implies be.contains(x) by {
            let k = choose|k: int| 0 <= k < off.len() && #[trigger] off[k].enabled && off[k].capability_code@ == x;
            assert(k != i && off[k] == caps[k]);
        }
    }
    assert(be.difference(ae) =~= set![code]) by {
        assert forall|x: Seq<char>| be.contains(x) && !ae.contains(x) implies x == code by {
            let k = choose|k: int| 0 <= k < caps.len() && #[trigger] caps[k].enabled && caps[k].capability_code@ == x;
            if k != i {
                assert(off[k] == caps[k]);
                assert(off[k].enabled && off[k].capability_code@ == x);
            }
        }
    }
    law_changes_are_differing_capabilities(caps, off, caps.len(), true);
    law_changes_are_differing_capabilities(off, caps, caps.len(), true);
    let c1 = spec_changes(caps, off, caps.len(), true);
    let c2 = spec_changes(off, caps, caps.len(), true);
    if c1.len() > 0 {
        let k = choose|k: int|
            0 <= k < caps.len() && #[trigger] c1[0] == (caps[k].capability_code@, cap_view(caps[k]), cap_view(off[k]))
                && cap_view(caps[k]) != cap_view(off[k]) && (true ==> caps[k].enabled && off[k].enabled);
        assert(k != i);
    }
    if c2.len() > 0 {
        let k = choose|k: int|
            0 <= k < caps.len() && #[trigger] c2[0] == (off[k].capability_code@, cap_view(off[k]), cap_view(caps[k]))
                && cap_view(off[k]) != cap_view(caps[k]) && (true ==> off[k].enabled && caps[k].enabled);
        assert(k != i);
    }
}

/// Changing a product into itself changes nothing: no capability, menu or permission comes
/// or goes, none changes, and (with the same plan version) nothing is warned about.
pub proof fn law_unchanged_product_has_no_diff(context: ProductContextVo)
    ensures
        ({
            let e = enabled_codes(context.capabilities@);
            &&& e.difference(e) == Set::<Seq<char>>::empty()
            &&& enabled_routes(e).difference(enabled_routes(e)) == Set::<Seq<char>>::empty()
            &&& enabled_permissions(e).difference(enabled_permissions(e)) == Set::<Seq<char>>::empty()
            &&& spec_changes(context.capabilities@, context.capabilities@, context.capabilities@.len(), true)
                == Seq::<(Seq<char>, CapabilityView, CapabilityView)>::empty()
        }),
{
    let e = enabled_codes(context.capabilities@);
    assert(e.difference(e) =~= Set::<Seq<char>>::empty());
    assert(enabled_routes(e).difference(enabled_routes(e)) =~= Set::<Seq<char>>::empty());
    assert(enabled_permissions(e).difference(enabled_permissions(e)) =~= Set::<Seq<char>>::empty());
    lemma_no_changes_against_itself(context.capabilities@, context.capabilities@.len(), true);
}

/// A capability is never both added and removed, and a menu or permission never both comes
/// and goes.
pub proof fn law_additions_and_removals_are_disjoint(before: Set<Seq<char>>, after: Set<Seq<char>>, x: Seq<char>)
    ensures
        !(after.difference(before).contains(x) && before.difference(after).contains(x)),
        !(enabled_routes(after).difference(enabled_routes(before)).contains(x) && enabled_routes(before).difference(
            enabled_routes(after),
        ).contains(x)),
        !(enabled_permissions(after).difference(enabled_permissions(before)).contains(x) && enabled_permissions(
            before,
        ).difference(enabled_permissions(after)).contains(x)),
{
}


// ---------------------------------------------------------------------------
// The hash of a change plan
// ---------------------------------------------------------------------------
/// How serde_json escapes one character inside a string literal: a quote and a backslash get
/// a backslash, the control characters with a short escape get it, the other controls below
/// U+0020 become `\u00XX` in lower-case hex, and everything else is written as it is.
pub open spec fn json_escape_char(c: char) -> Seq<char> {
    let u = c as u32;
    if u == 0x22 {
        seq!['\\', '"']
    } else if u == 0x5C {
        seq!['\\', '\\']
    } else if u == 0x08 {
        seq!['\\', 'b']
    } else if u == 0x09 {
        seq!['\\', 't']
    } else if u == 0x0A {
        seq!['\\', 'n']
    } else if u == 0x0C {
        seq!['\\', 'f']
    } else if u == 0x0D {
        seq!['\\', 'r']
    } else if u < 0x20 {
        seq!['\\', 'u', '0', '0', hex_digit((u / 16) as nat), hex_digit((u % 16) as nat)]
    } else {
        seq![c]
    }
}

/// A text with every character escaped as serde_json escapes it.
pub open spec fn json_escaped(s: Seq<char>) -> Seq<char>
    decreases s.len(),
{
    if s.len() == 0 {
        Seq::empty()
    } else {
        json_escaped(s.drop_last()) + json_escape_char(s.last())
    }
}

/// The JSON string literal that serde_json writes for a text: the escaped text in quotes.
pub open spec fn json_quoted(s: Seq<char>) -> Seq<char> {
    seq!['"'] + json_escaped(s) + seq!['"']
}

/// Wraps `serde_json::to_string` on a string slice: the text as a JSON string literal,
/// escaped as `json_quoted` states (serde_json's escape table and `\u00XX` form). Escaping a
/// `str` into the `Vec` that `to_string` writes to cannot fail, so a result always comes.
#[verifier::external_body]
fn json_string(s: &str) -> (r: Option<String>)
    ensures
        r is Some,
        r matches Some(q) ==> q@ == json_quoted(s@),
{
    serde_json::to_string(s).ok()
}

pub open spec fn json_bool(b: bool) -> Seq<char> {
    if b {
        "true"@
    } else {
        "false"@
    }
}

/// One override in the plan's canonical JSON (keys in order; `config` is already JSON).
pub open spec fn override_json(o: CapabilityOverrideInput) -> Seq<char> {
    "{\"capability_code\":"@ + json_quoted(o.capability_code@) + ",\"config\":"@ + o.config@ + ",\"enabled\":"@
        + json_bool(o.enabled) + ",\"schema_version\":"@ + signed_decimal(o.schema_version as int)
        + ",\"variant_code\":"@ + json_quoted(o.variant_code@) + "}"@
}

/// The first `n` overrides, separated by commas.
pub open spec fn overrides_json(os: Seq<CapabilityOverrideInput>, n: nat) -> Seq<char>
    decreases n,
{
    if n == 0 {
        Seq::empty()
    } else if n == 1 {
        override_json(os[0])
    } else {
        overrides_json(os, (n - 1) as nat) + ","@ + override_json(os[n - 1])
    }
}

/// The canonical JSON of a change plan: an object with its keys in order.
pub open spec fn change_plan_json(
    tenant_id: Seq<char>,
    plan_version_id: i64,
    overrides: Seq<CapabilityOverrideInput>,
    runtime_epoch: Seq<char>,
) -> Seq<char> {
    "{\"overrides\":["@ + overrides_json(overrides, overrides.len()) + "],\"plan_version_id\":"@ + json_quoted(
        signed_decimal(plan_version_id as int),
    ) + ",\"runtime_epoch\":"@ + json_quoted(runtime_epoch) + ",\"tenant_id\":"@ + json_quoted(tenant_id) + "}"@
}

/// Appends the JSON string literal of `s` (and reports that it did).
pub fn push_json_string(out: &mut String, s: &str) -> (ok: bool)
    ensures
        ok,
        final(out)@ == old(out)@ + json_quoted(s@),
{
    match json_string(s) {
        Some(q) => {
            push_str(out, q.as_str());
            true
        },
        None => false,
    }
}

fn push_override_json(out: &mut String, o: &CapabilityOverrideInput) -> (ok: bool)
    ensures
        ok,
        final(out)@ == old(out)@ + override_json(*o),
{
    let ghost start = out@;
    push_str(out, "{\"capability_code\":");
    push_json_string(out, o.capability_code.as_str());
    push_str(out, ",\"config\":");
    push_str(out, o.config.as_str());
    push_str(out, ",\"enabled\":");
    push_str(out, if o.enabled { "true" } else { "false" });
    push_str(out, ",\"schema_version\":");
    push_signed_decimal(out, o.schema_version as i64);
    push_str(out, ",\"variant_code\":");
    push_json_string(out, o.variant_code.as_str());
    push_str(out, "}");
    proof {
        assert(out@ =~= start + override_json(*o));
    }
    true
}

/// The hash of a product change plan: lower-case hex SHA-256 of the plan's canonical JSON
/// (tenant, target plan version, overrides in order, and the runtime epoch it was computed at).
pub fn product_change_hash(
    tenant_id: &str,
    plan_version_id: i64,
    overrides: &[CapabilityOverrideInput],
    runtime_epoch: &str,
) -> (r: AppResult<String>)
    ensures
        r is Ok,
        r matches Ok(h) ==> h@ == hex_seq(
            sha256(vstd::utf8::encode_utf8(change_plan_json(tenant_id@, plan_version_id, overrides@, runtime_epoch@))),
        ),
{
    let mut text = owned("{\"overrides\":[");
    let ghost head = text@;
    let mut i: usize = 0;
    while i < overrides.len()
        invariant
            i <= overrides.len(),
            text@ == head + overrides_json(overrides@, i as nat),
        decreases overrides.len() - i,
    {
        let ghost before = text@;
        if i > 0 {
            push_str(&mut text, ",");
        }
        push_override_json(&mut text, &overrides[i]);
        proof {
            if i == 0 {
                assert(overrides_json(overrides@, 0) =~= Seq::<char>::empty());
                assert(text@ =~= head + overrides_json(overrides@, 1));
            } else {
                assert(text@ =~= head + overrides_json(overrides@, (i + 1) as nat));
            }
        }
        i = i + 1;
    }
    push_str(&mut text, "],\"plan_version_id\":");
    let mut id = String::new();
    push_signed_decimal(&mut id, plan_version_id);
    push_json_string(&mut text, id.as_str());
    push_str(&mut text, ",\"runtime_epoch\":");
    push_json_string(&mut text, runtime_epoch);
    push_str(&mut text, ",\"tenant_id\":");
    push_json_string(&mut text, tenant_id);
    push_str(&mut text, "}");
    proof {
        assert(id@ =~= signed_decimal(plan_version_id as int));
        assert(text@ =~= change_plan_json(tenant_id@, plan_version_id, overrides@, runtime_epoch@));
    }
    Ok(sha256_hex(text.as_str().as_bytes()))
}

} // verus!

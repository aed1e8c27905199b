//! Service-account input rules, idempotent replays, capability intersection and expiries.
use vstd::prelude::*;

use crate::crypto::{copy_bytes, request_fingerprint, spec_request_fingerprint, parts_view};
use crate::error::{AppError, AppResult};
use crate::strset::{sort_dedup, sorted_strict, views, StrSet};
use crate::text::{
    byte_len, chars_of, lower_seq, owned, push_decimal, push_signed_decimal, push_str, signed_decimal, to_ascii_lowercase, trim,
    trimmed, utf8_len,
};

verus! {

/// Seconds in an hour and in a day.
pub const SECONDS_PER_HOUR: i64 = 3600;

pub const SECONDS_PER_DAY: i64 = 86400;

/// Status of an enabled service account.
pub const ACCOUNT_STATUS_NORMAL: &'static str = "0";

/// Status of a disabled service account.
pub const ACCOUNT_STATUS_DISABLED: &'static str = "1";

/// A capability that the agent registry offers to the management domain.
#[derive(Debug)]
pub struct ServiceCapabilityDescriptor {
    pub key: String,
    pub permission: String,
    pub direct: bool,
    pub delegated: bool,
}

impl ServiceCapabilityDescriptor {
    /// A field-by-field copy.
    pub fn duplicate(&self) -> (r: ServiceCapabilityDescriptor)
        ensures
            r == *self,
    {
        ServiceCapabilityDescriptor {
            key: self.key.clone(),
            permission: self.permission.clone(),
            direct: self.direct,
            delegated: self.delegated,
        }
    }
}

/// Command to create a service account.
#[derive(Debug)]
pub struct CreateServiceAccountCommand {
    pub code: String,
    pub name: String,
    pub description: Option<String>,
    pub dept_id: Option<i64>,
    pub max_requests_per_minute: Option<i32>,
}

/// Command to update a service account.
#[derive(Debug)]
pub struct UpdateServiceAccountCommand {
    pub name: String,
    pub description: Option<String>,
    pub dept_id: Option<i64>,
    pub max_requests_per_minute: i32,
}

/// A service account a user may delegate to, with the capabilities both sides hold.
#[derive(Debug)]
pub struct ServiceDelegationTargetVo {
    pub account_id: String,
    pub code: String,
    pub name: String,
    pub capabilities: Vec<ServiceCapabilityDescriptor>,
}

// ---------------------------------------------------------------------------
// Field rules
// ---------------------------------------------------------------------------
pub open spec fn code_char_ok(c: char) -> bool {
    ('a' <= c && c <= 'z') || ('0' <= c && c <= '9') || c == '-' || c == '_'
}

/// The normalised account code: trimmed and ASCII lower-cased.
pub open spec fn normalized_code(value: Seq<char>) -> Seq<char> {
    lower_seq(trim(value))
}

/// A normalised code is accepted when it is non-empty, at most 64 bytes, and made of lower-case
/// letters, digits, `-` and `_`.
pub open spec fn code_ok(v: Seq<char>) -> bool {
    &&& v.len() > 0
    &&& utf8_len(v) <= 64
    &&& forall|i: int| 0 <= i < v.len() ==> code_char_ok(#[trigger] v[i])
}

fn all_chars_code_ok(v: &[char]) -> (r: bool)
    ensures
        r == forall|i: int| 0 <= i < v@.len() ==> code_char_ok(#[trigger] v@[i]),
{
    let mut i: usize = 0;
    while i < v.len()
        invariant
            i <= v.len(),
            forall|j: int| 0 <= j < i ==> code_char_ok(#[trigger] v@[j]),
        decreases v.len() - i,
    {
        let c = v[i];
        if !(('a' <= c && c <= 'z') || ('0' <= c && c <= '9') || c == '-' || c == '_') {
            return false;
        }
        i = i + 1;
    }
    true
}

/// Normalises and checks a service-account code.
pub fn validate_code(value: String) -> (r: AppResult<String>)
    ensures
        r is Ok <==> code_ok(normalized_code(value@)),
        r is Ok ==> r->Ok_0@ == normalized_code(value@),
        r is Err ==> r->Err_0 is Validation,
{
    let t = trimmed(value.as_str());
    let v = to_ascii_lowercase(t.as_str());
    let chars = chars_of(v.as_str());
    let n = byte_len(v.as_str());
    if chars.len() == 0 || n > 64 || !all_chars_code_ok(chars.as_slice()) {
        return Err(
            AppError::Validation(
                owned("服务账号代码只能包含小写字母、数字、连字符和下划线，且最长 64 字符"),
            ),
        );
    }
    Ok(v)
}

/// A required text field is accepted when, trimmed, it is non-empty and at most `max` characters.
pub open spec fn required_text_ok(value: Seq<char>, max: usize) -> bool {
    trim(value).len() > 0 && trim(value).len() <= max
}

/// Trims a required text field and checks its length in characters.
pub fn required_text(value: String, field: &str, max: usize) -> (r: AppResult<String>)
    ensures
        r is Ok <==> required_text_ok(value@, max),
        r is Ok ==> r->Ok_0@ == trim(value@),
        r is Err ==> r->Err_0 is Validation,
{
    let t = trimmed(value.as_str());
    let n = chars_of(t.as_str()).len();
    if n == 0 || n > max {
        let mut m = owned(field);
        push_str(&mut m, "不能为空且不能超过 ");
        push_decimal(&mut m, max as u64);
        push_str(&mut m, " 个字符");
        return Err(AppError::Validation(m));
    }
    Ok(t)
}

/// An optional text field: absent stays absent, present must pass the required-text rule.
pub fn optional_text(value: Option<String>, max: usize) -> (r: AppResult<Option<String>>)
    ensures
        value is None ==> r == Ok::<Option<String>, AppError>(None),
        value is Some ==> (r is Ok <==> required_text_ok(value->0@, max)),
        value is Some && r is Ok ==> r->Ok_0 is Some && r->Ok_0->0@ == trim(value->0@),
        r is Err ==> r->Err_0 is Validation,
{
    match value {
        None => Ok(None),
        Some(v) => match required_text(v, "说明", max) {
            Ok(t) => Ok(Some(t)),
            Err(e) => Err(e),
        },
    }
}

/// Requests per minute must lie in `1..=10000`.
pub fn validate_rate_limit(value: i32) -> (r: AppResult<()>)
    ensures
        r is Ok <==> 1 <= value <= 10000,
        r is Err ==> r->Err_0 is Validation,
{
    if !(1 <= value && value <= 10000) {
        return Err(AppError::Validation(owned("每分钟请求上限必须在 1 到 10000 之间")));
    }
    Ok(())
}

pub open spec fn graphic(c: char) -> bool {
    '!' <= c && c <= '~'
}

/// An idempotency key is accepted when, trimmed, it has 16 to 128 bytes, all visible ASCII.
pub open spec fn idempotency_key_ok(value: Seq<char>) -> bool {
    &&& 16 <= utf8_len(trim(value)) <= 128
    &&& forall|i: int| 0 <= i < trim(value).len() ==> graphic(#[trigger] trim(value)[i])
}

/// Trims and checks an `Idempotency-Key` header value.
pub fn validate_idempotency_key(value: String) -> (r: AppResult<String>)
    ensures
        r is Ok <==> idempotency_key_ok(value@),
        r is Ok ==> r->Ok_0@ == trim(value@),
        r is Err ==> r->Err_0 is Validation,
{
    let t = trimmed(value.as_str());
    let n = byte_len(t.as_str());
    let v = chars_of(t.as_str());
    let mut all = true;
    let mut i: usize = 0;
    while i < v.len()
        invariant
            i <= v.len(),
            all == forall|j: int| 0 <= j < i ==> graphic(#[trigger] v@[j]),
        decreases v.len() - i,
    {
        if !('!' <= v[i] && v[i] <= '~') {
            all = false;
        }
        i = i + 1;
    }
    if n < 16 || n > 128 || !all {
        return Err(AppError::Validation(owned("Idempotency-Key 必须为 16 到 128 个可见 ASCII 字符")));
    }
    Ok(t)
}

/// A replayed idempotency key must carry the same request fingerprint.
pub fn ensure_same_fingerprint(existing: &[u8], requested: &[u8]) -> (r: AppResult<()>)
    ensures
        r is Ok <==> existing@ == requested@,
        r is Err ==> r->Err_0 is Conflict,
{
    if existing.len() != requested.len() {
        return Err(AppError::Conflict(owned("相同 Idempotency-Key 已用于不同请求")));
    }
    let mut i: usize = 0;
    while i < existing.len()
        invariant
            existing.len() == requested.len(),
            i <= existing.len(),
            forall|j: int| 0 <= j < i ==> existing@[j] == requested@[j],
        decreases existing.len() - i,
    {
        if existing[i] != requested[i] {
            return Err(AppError::Conflict(owned("相同 Idempotency-Key 已用于不同请求")));
        }
        i = i + 1;
    }
    assert(existing@ =~= requested@);
    Ok(())
}

/// The service-account feature must be switched on.
pub fn ensure_enabled(enabled: bool) -> (r: AppResult<()>)
    ensures
        r is Ok <==> enabled,
        r is Err ==> r->Err_0 is ServiceUnavailable,
{
    if enabled {
        Ok(())
    } else {
        Err(AppError::ServiceUnavailable(owned("服务账号功能未启用")))
    }
}

/// Only the enabled and disabled statuses may be set.
pub fn validate_account_status(status: &str) -> (r: AppResult<()>)
    ensures
        r is Ok <==> (status@ == seq!['0'] || status@ == seq!['1']),
        r is Err ==> r->Err_0 is Validation,
{
    let v = chars_of(status);
    if v.len() == 1 && (v[0] == '0' || v[0] == '1') {
        assert(v@ =~= seq![v@[0]]);
        Ok(())
    } else {
        Err(AppError::Validation(owned("无效的服务账号状态")))
    }
}

// ---------------------------------------------------------------------------
// Registry and capability intersection
// ---------------------------------------------------------------------------
pub open spec fn capability_fields_ok(c: ServiceCapabilityDescriptor) -> bool {
    trim(c.key@).len() > 0 && trim(c.permission@).len() > 0 && (c.direct || c.delegated)
}

/// The registry is accepted when every capability has a key and a permission, enables at least
/// one access mode, and no key repeats.
pub open spec fn capabilities_ok(caps: Seq<ServiceCapabilityDescriptor>) -> bool {
    &&& forall|i: int| 0 <= i < caps.len() ==> capability_fields_ok(#[trigger] caps[i])
    &&& forall|i: int, j: int| 0 <= i < j < caps.len() ==> #[trigger] caps[i].key@ != #[trigger] caps[j].key@
}

/// Checks the capability registry handed to the service.
pub fn validate_capabilities(capabilities: &[ServiceCapabilityDescriptor]) -> (r: AppResult<()>)
    ensures
        r is Ok <==> capabilities_ok(capabilities@),
        r is Err ==> r->Err_0 is Config,
{
    let mut keys = StrSet::new();
    let mut i: usize = 0;
    while i < capabilities.len()
        invariant
            i <= capabilities.len(),
            keys.wf(),
            capabilities_ok(capabilities@.take(i as int)),
            keys.set() == Set::new(
                |k: Seq<char>| exists|j: int| 0 <= j < i && #[trigger] capabilities@[j].key@ == k,
            ),
        decreases capabilities.len() - i,
    {
        let c = &capabilities[i];
        let key_blank = chars_of(trimmed(c.key.as_str()).as_str()).len() == 0;
        let perm_blank = chars_of(trimmed(c.permission.as_str()).as_str()).len() == 0;
        if key_blank || perm_blank {
            assert(!capability_fields_ok(capabilities@[i as int]));
            return Err(AppError::Config(owned("服务能力 key 和 permission 不能为空")));
        }
        if !c.direct && !c.delegated {
            let mut m = owned("服务能力 ");
            push_str(&mut m, c.key.as_str());
            push_str(&mut m, " 未启用任何访问模式");
            return Err(AppError::Config(m));
        }
        let ghost before_keys = keys.set();
        let fresh = keys.insert(c.key.clone());
        if !fresh {
            proof {
                let j = choose|j: int| 0 <= j < i && #[trigger] capabilities@[j].key@ == c.key@;
                assert(capabilities@[j].key@ == capabilities@[i as int].key@);
            }
            let mut m = owned("服务能力 ");
            push_str(&mut m, c.key.as_str());
            push_str(&mut m, " 重复");
            return Err(AppError::Config(m));
        }
        proof {
            let t = capabilities@.take(i + 1 as int);
            assert forall|a: int, b: int| 0 <= a < b < t.len() implies #[trigger] t[a].key@
                != #[trigger] t[b].key@ by {
                if b == i {
                    if t[a].key@ == c.key@ {
                        assert(capabilities@[a].key@ == c.key@);
                        assert(before_keys.contains(c.key@));
                    }
                } else {
                    assert(capabilities@.take(i as int)[a] == t[a]);
                    assert(capabilities@.take(i as int)[b] == t[b]);
                }
            }
            assert forall|a: int| 0 <= a < t.len() implies capability_fields_ok(#[trigger] t[a]) by {
                if a < i {
                    assert(capabilities@.take(i as int)[a] == t[a]);
                }
            }
            assert(keys.set() =~= Set::new(
                |k: Seq<char>| exists|j: int| 0 <= j < i + 1 && #[trigger] capabilities@[j].key@ == k,
            )) by {
                assert forall|k: Seq<char>| #[trigger] keys.set().contains(k) implies (exists|j: int|
                    0 <= j < i + 1 && #[trigger] capabilities@[j].key@ == k) by {
                    if k == c.key@ {
                        assert(capabilities@[i as int].key@ == k);
                    }
                }
            }
        }
        i = i + 1;
    }
    assert(capabilities@.take(capabilities.len() as int) =~= capabilities@);
    Ok(())
}

/// The capabilities a user may delegate to an account: delegable ones whose permission both
/// the user and the account hold (`user_grants[i]`, `account_grants[i]` tell whether each side
/// holds the permission of `capabilities[i]`).
pub open spec fn spec_common_capabilities(
    caps: Seq<ServiceCapabilityDescriptor>,
    user_grants: Seq<bool>,
    account_grants: Seq<bool>,
) -> Seq<ServiceCapabilityDescriptor>
    decreases caps.len(),
{
    if caps.len() == 0 {
        seq![]
    } else {
        let rest = spec_common_capabilities(
            caps.drop_last(),
            user_grants.drop_last(),
            account_grants.drop_last(),
        );
        if caps.last().delegated && user_grants.last() && account_grants.last() {
            rest.push(caps.last())
        } else {
            rest
        }
    }
}

/// Every capability offered in common is one of the registry's, allows delegation, and its
/// permission is held by both the user and the account; every such capability is offered; and
/// nothing is offered twice over what the registry lists.
pub proof fn law_common_capabilities_are_delegable_and_held_by_both(
    caps: Seq<ServiceCapabilityDescriptor>,
    user_grants: Seq<bool>,
    account_grants: Seq<bool>,
)
    requires
        user_grants.len() == caps.len(),
        account_grants.len() == caps.len(),
    ensures
        ({
            let common = spec_common_capabilities(caps, user_grants, account_grants);
            &&& common.len() <= caps.len()
            &&& forall|j: int|
                0 <= j < common.len() ==> exists|i: int|
                    0 <= i < caps.len() && caps[i] == #[trigger] common[j] && caps[i].delegated && user_grants[i]
                        && account_grants[i]
            &&& forall|i: int|
                0 <= i < caps.len() && (#[trigger] caps[i]).delegated && user_grants[i] && account_grants[i]
                    ==> common.contains(caps[i])
        }),
    decreases caps.len(),
{
    if caps.len() > 0 {
        let n = caps.len() - 1;
        let (c0, u0, a0) = (caps.drop_last(), user_grants.drop_last(), account_grants.drop_last());
        law_common_capabilities_are_delegable_and_held_by_both(c0, u0, a0);
        let rest = spec_common_capabilities(c0, u0, a0);
        let common = spec_common_capabilities(caps, user_grants, account_grants);
        assert forall|j: int| 0 <= j < common.len() implies exists|i: int|
            0 <= i < caps.len() && caps[i] == #[trigger] common[j] && caps[i].delegated && user_grants[i]
                && account_grants[i] by {
            if j < rest.len() {
                assert(common[j] == rest[j]);
                let i = choose|i: int|
                    0 <= i < c0.len() && c0[i] == #[trigger] rest[j] && c0[i].delegated && u0[i] && a0[i];
                assert(caps[i] == c0[i] && user_grants[i] == u0[i] && account_grants[i] == a0[i]);
            } else {
                assert(common[j] == caps[n]);
            }
        }
        assert forall|i: int|
            0 <= i < caps.len() && (#[trigger] caps[i]).delegated && user_grants[i] && account_grants[i] implies common.contains(
            caps[i],
        ) by {
            if i < n {
                assert(caps[i] == c0[i] && user_grants[i] == u0[i] && account_grants[i] == a0[i]);
                assert(rest.contains(c0[i]));
                let k = choose|k: int| 0 <= k < rest.len() && rest[k] == c0[i];
                assert(common[k] == rest[k]);
            } else {
                assert(common[common.len() - 1] == caps[n]);
            }
        }
    }
}

/// Filters the registry down to the capabilities both sides hold and that allow delegation.
pub fn common_capabilities(
    capabilities: &[ServiceCapabilityDescriptor],
    user_grants: &[bool],
    account_grants: &[bool],
) -> (r: Vec<ServiceCapabilityDescriptor>)
    requires
        user_grants.len() == capabilities.len(),
        account_grants.len() == capabilities.len(),
    ensures
        r@ == spec_common_capabilities(capabilities@, user_grants@, account_grants@),
        forall|j: int|
            0 <= j < r@.len() ==> exists|i: int|
                0 <= i < capabilities@.len() && capabilities@[i] == #[trigger] r@[j] && capabilities@[i].delegated
                    && user_grants@[i] && account_grants@[i],
{
    let mut r: Vec<ServiceCapabilityDescriptor> = Vec::new();
    let mut i: usize = 0;
    while i < capabilities.len()
        invariant
            i <= capabilities.len(),
            user_grants.len() == capabilities.len(),
            account_grants.len() == capabilities.len(),
            r@ == spec_common_capabilities(
                capabilities@.take(i as int),
                user_grants@.take(i as int),
                account_grants@.take(i as int),
            ),
        decreases capabilities.len() - i,
    {
        proof {
            assert(capabilities@.take(i + 1 as int).drop_last() =~= capabilities@.take(i as int));
            assert(user_grants@.take(i + 1 as int).drop_last() =~= user_grants@.take(i as int));
            assert(account_grants@.take(i + 1 as int).drop_last() =~= account_grants@.take(
                i as int,
            ));
        }
        let c = &capabilities[i];
        if c.delegated && user_grants[i] && account_grants[i] {
            r.push(c.duplicate());
        }
        i = i + 1;
    }
    assert(capabilities@.take(capabilities.len() as int) =~= capabilities@);
    assert(user_grants@.take(capabilities.len() as int) =~= user_grants@);
    assert(account_grants@.take(capabilities.len() as int) =~= account_grants@);
    proof {
        law_common_capabilities_are_delegable_and_held_by_both(capabilities@, user_grants@, account_grants@);
    }
    r
}

// ---------------------------------------------------------------------------
// Commands
// ---------------------------------------------------------------------------
/// The checked and normalised fields of a create-account command.
#[derive(Debug)]
pub struct ValidatedAccountInput {
    pub code: String,
    pub name: String,
    pub description: Option<String>,
    pub max_requests_per_minute: i32,
}

/// The rate limit an account gets when the command names none: the configured default,
/// clamped to `i32::MAX`.
pub open spec fn spec_default_rate(default_requests_per_minute: u32) -> i32 {
    if default_requests_per_minute <= i32::MAX {
        default_requests_per_minute as i32
    } else {
        i32::MAX
    }
}

/// Checks a create-account command in the order the service applies the rules.
pub fn validate_create_account(
    command: &CreateServiceAccountCommand,
    default_requests_per_minute: u32,
) -> (r: AppResult<ValidatedAccountInput>)
    ensures
        r is Ok <==> {
            &&& code_ok(normalized_code(command.code@))
            &&& required_text_ok(command.name@, 128)
            &&& (command.description is Some ==> required_text_ok(command.description->0@, 500))
            &&& {
                let rate = match command.max_requests_per_minute {
                    Some(v) => v,
                    None => spec_default_rate(default_requests_per_minute),
                };
                1 <= rate <= 10000
            }
        },
        r is Ok ==> {
            &&& r->Ok_0.code@ == normalized_code(command.code@)
            &&& r->Ok_0.name@ == trim(command.name@)
            &&& r->Ok_0.max_requests_per_minute == match command.max_requests_per_minute {
                Some(v) => v,
                None => spec_default_rate(default_requests_per_minute),
            }
            &&& (command.description is None <==> r->Ok_0.description is None)
            &&& (command.description is Some ==> r->Ok_0.description->0@ == trim(
                command.description->0@,
            ))
        },
        r is Err ==> r->Err_0 is Validation,
{
    let code = validate_code(command.code.clone())?;
    let name = required_text(command.name.clone(), "服务账号名称", 128)?;
    let description = optional_text(command.description.clone(), 500)?;
    let rate = match command.max_requests_per_minute {
        Some(v) => v,
        None => if default_requests_per_minute <= 2147483647u32 {
            default_requests_per_minute as i32
        } else {
            2147483647i32
        },
    };
    validate_rate_limit(rate)?;
    Ok(ValidatedAccountInput { code, name, description, max_requests_per_minute: rate })
}

/// The checked fields of an update-account command.
#[derive(Debug)]
pub struct ValidatedAccountUpdate {
    pub name: String,
    pub description: Option<String>,
}

/// Checks an update-account command in the order the service applies the rules.
pub fn validate_update_account(command: &UpdateServiceAccountCommand) -> (r: AppResult<
    ValidatedAccountUpdate,
>)
    ensures
        r is Ok <==> {
            &&& required_text_ok(command.name@, 128)
            &&& (command.description is Some ==> required_text_ok(command.description->0@, 500))
            &&& 1 <= command.max_requests_per_minute <= 10000
        },
        r is Ok ==> r->Ok_0.name@ == trim(command.name@) && (command.description is None
            <==> r->Ok_0.description is None) && (command.description is Some
            ==> r->Ok_0.description->0@ == trim(command.description->0@)),
        r is Err ==> r->Err_0 is Validation,
{
    let name = required_text(command.name.clone(), "服务账号名称", 128)?;
    let description = optional_text(command.description.clone(), 500)?;
    validate_rate_limit(command.max_requests_per_minute)?;
    Ok(ValidatedAccountUpdate { name, description })
}

// ---------------------------------------------------------------------------
// Credentials and delegations
// ---------------------------------------------------------------------------
/// An API key must expire after `now` and no later than `max_days` days after it.
pub open spec fn credential_expiry_ok(expires_at: i64, now: i64, max_days: u32) -> bool {
    now < expires_at <= now + max_days * SECONDS_PER_DAY
}

/// Checks the requested expiry (UNIX seconds) of a new API key.
pub fn check_credential_expiry(expires_at: i64, now: i64, max_days: u32) -> (r: AppResult<()>)
    requires
        i64::MIN / 2 <= now <= i64::MAX / 2,
    ensures
        r is Ok <==> credential_expiry_ok(expires_at, now, max_days),
        r is Err ==> r->Err_0 is Validation,
{
    let limit: i128 = now as i128 + max_days as i128 * 86400;
    if expires_at <= now || expires_at as i128 > limit {
        let mut m = owned("API Key 必须到期且有效期不能超过 ");
        push_decimal(&mut m, max_days as u64);
        push_str(&mut m, " 天");
        return Err(AppError::Validation(m));
    }
    Ok(())
}

/// At most `max_active` API keys may be active at once.
pub fn check_active_credentials(active: u64, max_active: u32) -> (r: AppResult<()>)
    ensures
        r is Ok <==> active < max_active,
        r is Err ==> r->Err_0 is Conflict,
{
    if active >= max_active as u64 {
        return Err(AppError::Conflict(owned("每个服务账号最多只能有两把有效 API Key")));
    }
    Ok(())
}

/// The capability keys of a delegation request, sorted and without repeats; at least one.
pub fn normalize_capability_keys(keys: Vec<String>) -> (r: AppResult<Vec<String>>)
    ensures
        r is Ok <==> keys@.len() > 0,
        r is Ok ==> sorted_strict(views(r->Ok_0@)) && views(r->Ok_0@).to_set() == views(
            keys@,
        ).to_set(),
        r is Err ==> r->Err_0 is Validation,
{
    let n = keys.len();
    let sorted = sort_dedup(keys);
    if n == 0 {
        return Err(AppError::Validation(owned("至少选择一项委托能力")));
    }
    Ok(sorted)
}

/// Every requested key must be one both sides currently hold.
pub fn check_delegable(requested: &[String], common: &StrSet) -> (r: AppResult<()>)
    requires
        common.wf(),
    ensures
        r is Ok <==> forall|i: int| 0 <= i < requested@.len() ==> common.set().contains(
            #[trigger] requested@[i]@,
        ),
        r is Err ==> r->Err_0 is Authorization,
{
    let mut i: usize = 0;
    while i < requested.len()
        invariant
            common.wf(),
            i <= requested.len(),
            forall|j: int| 0 <= j < i ==> common.set().contains(#[trigger] requested@[j]@),
        decreases requested.len() - i,
    {
        if !common.contains(requested[i].as_str()) {
            return Err(AppError::Authorization(owned("只能委托双方当前共同拥有的已注册能力")));
        }
        i = i + 1;
    }
    Ok(())
}

/// The expiry of a delegation: the requested one, or `now` plus the default hours.
pub open spec fn spec_delegation_expiry(requested: Option<i64>, now: i64, default_hours: u32) -> int {
    match requested {
        Some(e) => e as int,
        None => now + default_hours * SECONDS_PER_HOUR,
    }
}

/// Resolves and checks a delegation expiry: after `now`, at most `max_days` days later.
pub fn resolve_delegation_expiry(
    requested: Option<i64>,
    now: i64,
    default_hours: u32,
    max_days: u32,
) -> (r: AppResult<i64>)
    requires
        i64::MIN / 2 <= now <= i64::MAX / 2,
    ensures
        r is Ok <==> now < spec_delegation_expiry(requested, now, default_hours) <= now + max_days
            * SECONDS_PER_DAY,
        r is Ok ==> r->Ok_0 == spec_delegation_expiry(requested, now, default_hours),
        r is Err ==> r->Err_0 is Validation,
{
    let expires: i128 = match requested {
        Some(e) => e as i128,
        None => now as i128 + default_hours as i128 * 3600,
    };
    let limit: i128 = now as i128 + max_days as i128 * 86400;
    if expires <= now as i128 || expires > limit {
        let mut m = owned("委托有效期不能超过 ");
        push_decimal(&mut m, max_days as u64);
        push_str(&mut m, " 天");
        return Err(AppError::Validation(m));
    }
    Ok(expires as i64)
}

/// Revoking "my" delegation is limited to the delegation's own user.
pub fn check_revoke_owner(owner_only: bool, delegation_user_id: i64, actor_user_id: i64) -> (r:
    AppResult<()>)
    ensures
        r is Ok <==> (!owner_only || delegation_user_id == actor_user_id),
        r is Err ==> r->Err_0 is Authorization,
{
    if owner_only && delegation_user_id != actor_user_id {
        return Err(AppError::Authorization(owned("只能撤销本人创建的委托")));
    }
    Ok(())
}

/// Fingerprint of a credential request: its label and its RFC 3339 expiry.
pub fn credential_fingerprint(label: &str, expires_at_text: &str) -> (r: Vec<u8>)
    ensures
        r@ == spec_request_fingerprint(
            seq![vstd::utf8::encode_utf8(label@), vstd::utf8::encode_utf8(expires_at_text@)],
        ),
{
    let parts: Vec<Vec<u8>> = vec![copy_bytes(label.as_bytes()), copy_bytes(expires_at_text.as_bytes())];
    let r = request_fingerprint(parts.as_slice());
    assert(parts_view(parts@) =~= seq![
        vstd::utf8::encode_utf8(label@),
        vstd::utf8::encode_utf8(expires_at_text@),
    ]);
    r
}


/// Texts joined with a NUL between consecutive ones (the first `n`).
pub open spec fn nul_joined(parts: Seq<Seq<char>>, n: nat) -> Seq<char>
    decreases n,
{
    if n == 0 {
        Seq::empty()
    } else if n == 1 {
        parts[0]
    } else {
        nul_joined(parts, (n - 1) as nat) + seq!['\0'] + parts[n - 1]
    }
}

fn join_with_nul(keys: &[String]) -> (r: String)
    ensures
        r@ == nul_joined(keys@.map_values(|k: String| k@), keys@.len()),
{
    let ghost ks = keys@.map_values(|k: String| k@);
    let mut r = String::new();
    let mut i: usize = 0;
    while i < keys.len()
        invariant
            i <= keys.len(),
            ks == keys@.map_values(|k: String| k@),
            r@ == nul_joined(ks, i as nat),
        decreases keys.len() - i,
    {
        if i > 0 {
            push_str(&mut r, "\0");
        }
        push_str(&mut r, keys[i].as_str());
        proof {
            reveal_strlit("\0");
            assert(ks[i as int] == keys@[i as int]@);
            if i == 0 {
                assert(r@ =~= nul_joined(ks, 1));
            } else {
                assert(r@ =~= nul_joined(ks, (i + 1) as nat));
            }
        }
        i = i + 1;
    }
    r
}

/// Fingerprint of a delegation request: the account id in decimal, the capability keys joined
/// with NUL, the requested expiry in RFC 3339 (empty when none was asked for), and the reason.
pub fn delegation_fingerprint(account_id: i64, capability_keys: &[String], requested_expiry_text: &str, reason: &str) -> (r: Vec<u8>)
    ensures
        r@ == spec_request_fingerprint(
            seq![
                vstd::utf8::encode_utf8(signed_decimal(account_id as int)),
                vstd::utf8::encode_utf8(nul_joined(capability_keys@.map_values(|k: String| k@), capability_keys@.len())),
                vstd::utf8::encode_utf8(requested_expiry_text@),
                vstd::utf8::encode_utf8(reason@),
            ],
        ),
{
    let mut id = String::new();
    push_signed_decimal(&mut id, account_id);
    let joined = join_with_nul(capability_keys);
    let parts: Vec<Vec<u8>> = vec![
        copy_bytes(id.as_str().as_bytes()),
        copy_bytes(joined.as_str().as_bytes()),
        copy_bytes(requested_expiry_text.as_bytes()),
        copy_bytes(reason.as_bytes()),
    ];
    let r = request_fingerprint(parts.as_slice());
    assert(parts_view(parts@) =~= seq![
        vstd::utf8::encode_utf8(signed_decimal(account_id as int)),
        vstd::utf8::encode_utf8(nul_joined(capability_keys@.map_values(|k: String| k@), capability_keys@.len())),
        vstd::utf8::encode_utf8(requested_expiry_text@),
        vstd::utf8::encode_utf8(reason@),
    ]);
    r
}


/// At most this many service accounts are offered as delegation targets.
pub const MAX_DELEGATION_TARGETS: u64 = 1_000;

/// A tenant with more usable service accounts than can be offered is refused.
pub fn check_target_count(count: u64) -> (r: AppResult<()>)
    ensures
        r is Ok <==> count <= MAX_DELEGATION_TARGETS,
        r is Err ==> r->Err_0 is Validation,
{
    if count > MAX_DELEGATION_TARGETS {
        return Err(AppError::Validation(owned("当前租户可用服务账号超过 1000 个，请由管理员收敛账号数量")));
    }
    Ok(())
}

/// An enabled service account of the tenant, as a delegation target is built from it.
pub struct ServiceAccountSummary {
    pub id: i64,
    pub code: String,
    pub name: String,
}

/// What a target shows: the account id in decimal, its code and name, and the capabilities.
pub open spec fn target_view(t: ServiceDelegationTargetVo) -> (Seq<char>, Seq<char>, Seq<char>, Seq<ServiceCapabilityDescriptor>) {
    (t.account_id@, t.code@, t.name@, t.capabilities@)
}

/// The targets among the first `n` accounts: each with at least one capability in common with
/// the user, in the accounts' order.
pub open spec fn spec_targets(
    caps: Seq<ServiceCapabilityDescriptor>,
    user_grants: Seq<bool>,
    accounts: Seq<ServiceAccountSummary>,
    account_grants: Seq<Vec<bool>>,
    n: nat,
) -> Seq<(Seq<char>, Seq<char>, Seq<char>, Seq<ServiceCapabilityDescriptor>)>
    decreases n,
{
    if n == 0 {
        Seq::empty()
    } else {
        let prev = spec_targets(caps, user_grants, accounts, account_grants, (n - 1) as nat);
        let a = accounts[n - 1];
        let common = spec_common_capabilities(caps, user_grants, account_grants[n - 1]@);
        if common.len() > 0 {
            prev.push((signed_decimal(a.id as int), a.code@, a.name@, common))
        } else {
            prev
        }
    }
}

/// No delegation target offers a capability the user cannot delegate: each capability of
/// each target is a delegable capability of the registry whose permission the user holds; and
/// each target offers at least one.
pub proof fn law_targets_offer_only_capabilities_the_user_holds(
    caps: Seq<ServiceCapabilityDescriptor>,
    user_grants: Seq<bool>,
    accounts: Seq<ServiceAccountSummary>,
    account_grants: Seq<Vec<bool>>,
    n: nat,
)
    requires
        user_grants.len() == caps.len(),
        n <= accounts.len(),
        account_grants.len() == accounts.len(),
        forall|i: int| 0 <= i < account_grants.len() ==> (#[trigger] account_grants[i])@.len() == caps.len(),
    ensures
        ({
            let targets = spec_targets(caps, user_grants, accounts, account_grants, n);
            forall|t: int, j: int|
                0 <= t < targets.len() && 0 <= j < (#[trigger] targets[t]).3.len() ==> targets[t].3.len() > 0
                    && exists|i: int|
                    0 <= i < caps.len() && caps[i] == #[trigger] targets[t].3[j] && caps[i].delegated
                        && user_grants[i]
        }),
    decreases n,
{
    if n > 0 {
        law_targets_offer_only_capabilities_the_user_holds(caps, user_grants, accounts, account_grants, (n - 1) as nat);
        let prev = spec_targets(caps, user_grants, accounts, account_grants, (n - 1) as nat);
        let targets = spec_targets(caps, user_grants, accounts, account_grants, n);
        let g = account_grants[n - 1]@;
        law_common_capabilities_are_delegable_and_held_by_both(caps, user_grants, g);
        assert forall|t: int, j: int|
            0 <= t < targets.len() && 0 <= j < (#[trigger] targets[t]).3.len() implies targets[t].3.len() > 0
                && exists|i: int|
                0 <= i < caps.len() && caps[i] == #[trigger] targets[t].3[j] && caps[i].delegated
                    && user_grants[i] by {
            if t < prev.len() {
                assert(targets[t] == prev[t]);
            } else {
                let common = spec_common_capabilities(caps, user_grants, g);
                assert(targets[t].3 == common);
                assert(common[j] == targets[t].3[j]);
            }
        }
    }
}

/// The accounts (in the given order) a user may delegate to, each with the capabilities both
/// hold; `account_grants[i]` tells which capabilities' permissions account `i` holds.
pub fn delegation_targets(
    capabilities: &[ServiceCapabilityDescriptor],
    user_grants: &[bool],
    accounts: Vec<ServiceAccountSummary>,
    account_grants: &[Vec<bool>],
) -> (r: Vec<ServiceDelegationTargetVo>)
    requires
        user_grants.len() == capabilities.len(),
        account_grants.len() == accounts.len(),
        forall|i: int| 0 <= i < account_grants.len() ==> #[trigger] account_grants[i].len() == capabilities.len(),
    ensures
        r@.map_values(|t: ServiceDelegationTargetVo| target_view(t)) == spec_targets(
            capabilities@,
            user_grants@,
            accounts@,
            account_grants@,
            accounts@.len(),
        ),
{
    let ghost all = accounts@;
    let mut r: Vec<ServiceDelegationTargetVo> = Vec::new();
    let mut i: usize = 0;
    while i < accounts.len()
        invariant
            i <= accounts.len(),
            accounts@ == all,
            user_grants.len() == capabilities.len(),
            account_grants.len() == accounts.len(),
            forall|k: int| 0 <= k < account_grants.len() ==> #[trigger] account_grants[k].len() == capabilities.len(),
            r@.map_values(|t: ServiceDelegationTargetVo| target_view(t)) == spec_targets(
                capabilities@,
                user_grants@,
                all,
                account_grants@,
                i as nat,
            ),
        decreases accounts.len() - i,
    {
        let grants = &account_grants[i];
        assert(grants.len() == capabilities.len());
        let common = common_capabilities(capabilities, user_grants, grants.as_slice());
        if common.len() > 0 {
            let a = &accounts[i];
            let mut id = String::new();
            push_signed_decimal(&mut id, a.id);
            let t = ServiceDelegationTargetVo {
                account_id: id,
                code: owned(a.code.as_str()),
                name: owned(a.name.as_str()),
                capabilities: common,
            };
            let ghost prev = r@;
            r.push(t);
            proof {
                assert(r@.map_values(|t: ServiceDelegationTargetVo| target_view(t)) =~= prev.map_values(
                    |t: ServiceDelegationTargetVo| target_view(t),
                ).push(target_view(t)));
                assert(target_view(t).0 =~= signed_decimal(all[i as int].id as int));
            }
        }
        i = i + 1;
    }
    r
}

} // verus!

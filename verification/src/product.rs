//! Product plans and capabilities: the compiled-in capability catalog and the rules on plan
//! keys, names, statuses and capability snapshots.
use vstd::prelude::*;

use crate::error::{AppError, AppResult};
use crate::strset::{views, StrMap};
use crate::text::{chars_of, owned, push_signed_decimal, push_str, str_eq, trim, trimmed};
use vstd::string::StringSliceAdditionalSpecFns;

verus! {

pub const SERVICE_ACCOUNTS_CAPABILITY: &'static str = "system.service_accounts";
pub const SYSTEM_TENANT_ID: &'static str = "system";

/// A capability a configuration package needs from its target.
#[derive(Debug, Clone, PartialEq, Eq)]
pub struct CapabilityRequirement {
    pub code: String,
    pub variant: String,
    pub schema_version: i32,
}

/// A configuration schema a capability accepts.
pub struct CapabilityVariantVo {
    pub code: String,
    pub schema_version: i32,
}

/// A capability of the catalog as shown to administrators.
pub struct CapabilityCatalogVo {
    pub code: String,
    pub name: String,
    pub description: String,
    pub affects_authorization: bool,
    pub dependencies: Vec<String>,
    pub conflicts: Vec<String>,
    pub route_keys: Vec<String>,
    pub permission_codes: Vec<String>,
    pub default_admin_permissions: Vec<String>,
    pub deployment_dependencies: Vec<String>,
    pub client_config_fields: Vec<String>,
    pub deployment_available: bool,
    pub variants: Vec<CapabilityVariantVo>,
}

/// A product plan to create.
pub struct CreateProductPlanCommand {
    pub key: String,
    pub name: String,
    pub description: Option<String>,
}

/// New values of a product plan.
pub struct UpdateProductPlanCommand {
    pub name: String,
    pub description: Option<String>,
    pub status: String,
}

/// Routes and permissions a tenant's capabilities provision.
pub struct ProvisioningCapabilityResources {
    pub enabled_route_keys: Vec<String>,
    pub enabled_permission_codes: Vec<String>,
    pub managed_route_keys: Vec<String>,
    pub managed_permission_codes: Vec<String>,
    pub default_admin_permissions: Vec<String>,
}

// ---------------------------------------------------------------------------
// Plan fields
// ---------------------------------------------------------------------------
/// A plan key: 2 to 64 bytes, a lowercase ASCII letter (97..=122) first, then lowercase
/// letters, digits (48..=57), `_` (95), `-` (45) or `.` (46).
pub open spec fn plan_key_byte_ok(b: u8, index: int) -> bool {
    (97 <= b <= 122) || (index > 0 && ((48 <= b <= 57) || b == 95 || b == 45 || b == 46))
}

pub open spec fn plan_key_ok(bytes: Seq<u8>) -> bool {
    2 <= bytes.len() <= 64 && forall|i: int| 0 <= i < bytes.len() ==> plan_key_byte_ok(#[trigger] bytes[i], i)
}

pub fn validate_plan_key(value: &str) -> (r: AppResult<()>)
    ensures
        r is Ok <==> plan_key_ok(value.spec_bytes()),
        r is Err ==> r->Err_0 is Validation,
{
    let bytes = value.as_bytes();
    let mut valid = 2 <= bytes.len() && bytes.len() <= 64;
    let mut i: usize = 0;
    while i < bytes.len()
        invariant
            bytes@ == value.spec_bytes(),
            i <= bytes.len(),
            valid == (2 <= bytes@.len() <= 64 && forall|j: int| 0 <= j < i ==> plan_key_byte_ok(#[trigger] bytes@[j], j)),
        decreases bytes.len() - i,
    {
        let b = bytes[i];
        let ok = (97 <= b && b <= 122) || (i > 0 && ((48 <= b && b <= 57) || b == 95 || b == 45 || b == 46));
        valid = valid && ok;
        i = i + 1;
    }
    if !valid {
        return Err(AppError::Validation(owned("套餐标识必须以小写字母开头，且仅包含小写字母、数字、点、横线或下划线")));
    }
    Ok(())
}

/// A name holds 1 to 128 characters once trimmed.
pub fn validate_name(value: &str, field: &str) -> (r: AppResult<()>)
    ensures
        r is Ok <==> 1 <= trim(value@).len() <= 128,
        r matches Err(e) ==> e is Validation && e.spec_message() == field@ + "长度必须在 1 到 128 个字符之间"@,
{
    let t = trimmed(value);
    let n = chars_of(t.as_str()).len();
    if n < 1 || n > 128 {
        let mut msg = owned(field);
        push_str(&mut msg, "长度必须在 1 到 128 个字符之间");
        return Err(AppError::Validation(msg));
    }
    Ok(())
}

/// A plan's status is `0` or `1`.
pub fn validate_plan_status(value: &str) -> (r: AppResult<()>)
    ensures
        r is Ok <==> (value@ == "0"@ || value@ == "1"@),
        r is Err ==> r->Err_0 is Validation,
{
    if str_eq(value, "0") || str_eq(value, "1") {
        Ok(())
    } else {
        Err(AppError::Validation(owned("套餐状态只能是 0 或 1")))
    }
}

/// Only the system tenant may manage products.
pub fn ensure_platform_actor(tenant_id: &str) -> (r: AppResult<()>)
    ensures
        r is Ok <==> tenant_id@ == SYSTEM_TENANT_ID@,
        r is Err ==> r->Err_0 is Authorization,
{
    if !str_eq(tenant_id, SYSTEM_TENANT_ID) {
        return Err(AppError::Authorization(owned("仅系统租户可以访问产品控制面")));
    }
    Ok(())
}

/// Compares two byte strings, looking at every byte whatever the first difference.
pub fn constant_time_eq(left: &[u8], right: &[u8]) -> (r: bool)
    ensures
        r == (left@ == right@),
{
    if left.len() != right.len() {
        return false;
    }
    let mut difference: u8 = 0;
    let mut i: usize = 0;
    while i < left.len()
        invariant
            left.len() == right.len(),
            i <= left.len(),
            (difference == 0) == forall|j: int| 0 <= j < i ==> left@[j] == right@[j],
        decreases left.len() - i,
    {
        let a = left[i];
        let b = right[i];
        let next = difference | (a ^ b);
        assert((next == 0) == (difference == 0 && a == b)) by (bit_vector)
            requires
                next == difference | (a ^ b),
        ;
        difference = next;
        i = i + 1;
    }
    proof {
        if difference == 0 {
            assert(left@ =~= right@);
        }
    }
    difference == 0
}

/// Owned copies of the given strings.
pub fn string_slice(values: &[&str]) -> (r: Vec<String>)
    ensures
        r@.len() == values@.len(),
        forall|i: int| 0 <= i < values@.len() ==> (#[trigger] r@[i])@ == values@[i]@,
{
    let mut r: Vec<String> = Vec::new();
    let mut i: usize = 0;
    while i < values.len()
        invariant
            i <= values.len(),
            r@.len() == i,
            forall|k: int| 0 <= k < i ==> (#[trigger] r@[k])@ == values@[k]@,
        decreases values.len() - i,
    {
        r.push(owned(values[i]));
        i = i + 1;
    }
    r
}

// ---------------------------------------------------------------------------
// Capability catalog
// ---------------------------------------------------------------------------
/// A configuration schema of a capability.
pub struct CapabilityVariant {
    pub code: String,
    pub schema_version: i32,
}

/// A capability compiled into this build.
pub struct CapabilityDescriptor {
    pub code: String,
    pub name: String,
    pub description: String,
    pub affects_authorization: bool,
    pub dependencies: Vec<String>,
    pub conflicts: Vec<String>,
    pub route_keys: Vec<String>,
    pub permission_codes: Vec<String>,
    pub default_admin_permissions: Vec<String>,
    pub deployment_dependencies: Vec<String>,
    pub client_config_fields: Vec<String>,
    pub variants: Vec<CapabilityVariant>,
}

/// The permissions of the service-account capability.
pub open spec fn service_account_permissions() -> Seq<Seq<char>> {
    seq![
        "system:service-account:list"@,
        "system:service-account:add"@,
        "system:service-account:edit"@,
        "system:service-account:remove"@,
        "system:service-account:role"@,
        "system:service-account:key-rotate"@,
        "system:service-account:key-revoke"@,
        "system:service-delegation:list"@,
        "system:service-delegation:revoke"@,
        "system:service-access-audit:list"@,
    ]
}

pub open spec fn service_account_routes() -> Seq<Seq<char>> {
    seq!["system.service-accounts"@]
}

fn service_account_permission_list() -> (r: Vec<String>)
    ensures
        views(r@) == service_account_permissions(),
{
    let mut r: Vec<String> = Vec::new();
    r.push(owned("system:service-account:list"));
    r.push(owned("system:service-account:add"));
    r.push(owned("system:service-account:edit"));
    r.push(owned("system:service-account:remove"));
    r.push(owned("system:service-account:role"));
    r.push(owned("system:service-account:key-rotate"));
    r.push(owned("system:service-account:key-revoke"));
    r.push(owned("system:service-delegation:list"));
    r.push(owned("system:service-delegation:revoke"));
    r.push(owned("system:service-access-audit:list"));
    assert(views(r@) =~= service_account_permissions());
    r
}

/// The service-account capability: routes, permissions, and the single `default` schema v1.
pub fn service_accounts_descriptor() -> (d: CapabilityDescriptor)
    ensures
        d.code@ == SERVICE_ACCOUNTS_CAPABILITY@,
        d.affects_authorization,
        views(d.route_keys@) == service_account_routes(),
        views(d.permission_codes@) == service_account_permissions(),
        views(d.default_admin_permissions@) == service_account_permissions(),
        d.dependencies@.len() == 0,
        d.conflicts@.len() == 0,
        d.client_config_fields@.len() == 0,
        d.variants@.len() == 1,
        d.variants@[0].code@ == "default"@,
        d.variants@[0].schema_version == 1,
{
    let mut route_keys: Vec<String> = Vec::new();
    route_keys.push(owned("system.service-accounts"));
    assert(views(route_keys@) =~= service_account_routes());
    let mut deployment_dependencies: Vec<String> = Vec::new();
    deployment_dependencies.push(owned("service_accounts.enabled"));
    deployment_dependencies.push(owned("redis"));
    let mut variants: Vec<CapabilityVariant> = Vec::new();
    variants.push(CapabilityVariant { code: owned("default"), schema_version: 1 });
    CapabilityDescriptor {
        code: owned(SERVICE_ACCOUNTS_CAPABILITY),
        name: owned("服务账号"),
        description: owned("服务账号、API Key、用户委托与服务访问审计"),
        affects_authorization: true,
        dependencies: Vec::new(),
        conflicts: Vec::new(),
        route_keys,
        permission_codes: service_account_permission_list(),
        default_admin_permissions: service_account_permission_list(),
        deployment_dependencies,
        client_config_fields: Vec::new(),
        variants,
    }
}

/// The catalog entry of `code`; a code this build does not know is a configuration error.
pub fn capability_descriptor(code: &str) -> (r: AppResult<CapabilityDescriptor>)
    ensures
        r is Ok <==> code@ == SERVICE_ACCOUNTS_CAPABILITY@,
        r is Err ==> r->Err_0 is Config,
        r matches Ok(d) ==> d.code@ == code@ && views(d.route_keys@) == service_account_routes() && views(
            d.permission_codes@,
        ) == service_account_permissions() && d.variants@.len() == 1 && d.variants@[0].code@ == "default"@
            && d.variants@[0].schema_version == 1,
{
    if str_eq(code, SERVICE_ACCOUNTS_CAPABILITY) {
        Ok(service_accounts_descriptor())
    } else {
        let mut msg = owned("数据库引用了未编译的能力代码 ");
        push_str(&mut msg, code);
        Err(AppError::Config(msg))
    }
}

/// A full capability snapshot is valid when the capability is known, the variant and schema
/// are among its variants, and the configuration (compact JSON) is what that schema accepts:
/// the service-account capability's `default` v1 takes only an empty object.
pub open spec fn snapshot_ok(code: Seq<char>, variant_code: Seq<char>, schema_version: i32, config_json: Seq<char>) -> bool {
    code == SERVICE_ACCOUNTS_CAPABILITY@ && variant_code == "default"@ && schema_version == 1 && config_json == "{}"@
}

pub fn validate_capability_snapshot(code: &str, variant_code: &str, schema_version: i32, config_json: &str) -> (r: AppResult<CapabilityDescriptor>)
    ensures
        r is Ok <==> snapshot_ok(code@, variant_code@, schema_version, config_json@),
        r is Err ==> (r->Err_0 is Config <==> code@ != SERVICE_ACCOUNTS_CAPABILITY@),
        r is Err ==> (r->Err_0 is Config || r->Err_0 is Validation),
        r matches Ok(d) ==> d.code@ == code@,
{
    let descriptor = capability_descriptor(code)?;
    let mut supported = false;
    let mut i: usize = 0;
    while i < descriptor.variants.len()
        invariant
            descriptor.variants@.len() == 1,
            descriptor.variants@[0].code@ == "default"@,
            descriptor.variants@[0].schema_version == 1,
            i <= descriptor.variants@.len(),
            supported == exists|k: int| 0 <= k < i && (#[trigger] descriptor.variants@[k]).code@ == variant_code@ && descriptor.variants@[k].schema_version == schema_version,
        decreases descriptor.variants.len() - i,
    {
        if str_eq(descriptor.variants[i].code.as_str(), variant_code) && descriptor.variants[i].schema_version == schema_version {
            supported = true;
        }
        i = i + 1;
    }
    if !supported {
        let mut msg = owned("能力 ");
        push_str(&mut msg, code);
        push_str(&mut msg, " 不支持变体 ");
        push_str(&mut msg, variant_code);
        push_str(&mut msg, " 的 schema v");
        push_signed_decimal(&mut msg, schema_version as i64);
        return Err(AppError::Validation(msg));
    }
    if !str_eq(config_json, "{}") {
        return Err(AppError::Validation(owned("system.service_accounts/default schema v1 只接受严格空 JSON 对象")));
    }
    Ok(descriptor)
}

/// A capability chosen for a plan version; `config` is compact JSON.
pub struct CapabilitySnapshotInput {
    pub capability_code: String,
    pub variant_code: String,
    pub schema_version: i32,
    pub config: String,
}

/// A tenant's override of a capability; `config` is compact JSON.
pub struct CapabilityOverrideInput {
    pub capability_code: String,
    pub enabled: bool,
    pub variant_code: String,
    pub schema_version: i32,
    pub config: String,
}

/// A stored override as shown.
pub struct CapabilityOverrideVo {
    pub capability_code: String,
    pub enabled: bool,
    pub variant_code: String,
    pub schema_version: i32,
    pub config: String,
    pub reason: Option<String>,
    pub changed_by: Option<String>,
}

pub open spec fn snapshot_input_ok(v: CapabilitySnapshotInput) -> bool {
    snapshot_ok(v.capability_code@, v.variant_code@, v.schema_version, v.config@)
}

pub open spec fn distinct_codes(codes: Seq<Seq<char>>) -> bool {
    forall|i: int, j: int| 0 <= i < j < codes.len() ==> codes[i] != codes[j]
}

pub open spec fn snapshot_codes(vs: Seq<CapabilitySnapshotInput>) -> Seq<Seq<char>> {
    vs.map_values(|v: CapabilitySnapshotInput| v.capability_code@)
}

/// Validates the capabilities of a plan version and orders them by code; a repeated code is
/// refused. (With the current catalog at most one capability can be valid.)
pub fn normalize_capability_snapshots(values: Vec<CapabilitySnapshotInput>) -> (r: AppResult<Vec<CapabilitySnapshotInput>>)
    ensures
        r is Ok <==> (forall|i: int| 0 <= i < values@.len() ==> snapshot_input_ok(#[trigger] values@[i])) && distinct_codes(snapshot_codes(values@)),
        r is Err ==> (r->Err_0 is Config || r->Err_0 is Validation),
        r matches Ok(v) ==> v@ == values@,
{
    let ghost input = values@;
    let mut by_code: StrMap<CapabilitySnapshotInput> = StrMap::new();
    let mut k: usize = 0;
    for value in it: values.into_iter()
        invariant
            it.seq() == input,
            k == it.index(),
            by_code.wf(),
            by_code.entries@.len() == k,
            forall|i: int| 0 <= i < k ==> snapshot_input_ok(#[trigger] input[i]),
            distinct_codes(snapshot_codes(input.take(k as int))),
            forall|i: int| 0 <= i < k ==> by_code.get_spec((#[trigger] input[i]).capability_code@) == Some(input[i]),
    {
        validate_capability_snapshot(value.capability_code.as_str(), value.variant_code.as_str(), value.schema_version, value.config.as_str())?;
        let code = value.capability_code.clone();
        let ghost v = value;
        if !by_code.insert_new(code, value) {
            proof {
                assert(k > 0);
                assert(input[0].capability_code@ == SERVICE_ACCOUNTS_CAPABILITY@);
                assert(snapshot_codes(input)[0] == snapshot_codes(input)[k as int]);
            }
            return Err(AppError::Validation(owned("能力代码不能重复")));
        }
        proof {
            assert(v == input[k as int]);
            if k > 0 {
                assert(input[0].capability_code@ == v.capability_code@);
                assert(by_code.get_spec(v.capability_code@) == Some(v));
            }
            assert(snapshot_codes(input.take(k + 1 as int)) =~= snapshot_codes(input.take(k as int)).push(v.capability_code@));
        }
        k = k + 1;
    }
    proof {
        assert(input.take(input.len() as int) =~= input);
        if input.len() >= 2 {
            assert(snapshot_codes(input)[0] == snapshot_codes(input)[1]);
        }
        if input.len() == 1 {
            crate::strset::lemma_map_key(by_code, input[0].capability_code@);
        }
    }
    let ghost ents = by_code.entries@;
    let StrMap { entries } = by_code;
    let mut out: Vec<CapabilitySnapshotInput> = Vec::new();
    for e in jt: entries.into_iter()
        invariant
            jt.seq() == ents,
            out@ == jt.seq().take(jt.index() as int).map_values(|e: (String, CapabilitySnapshotInput)| e.1),
    {
        let (_, v) = e;
        out.push(v);
        proof {
            assert(jt.seq().take(jt.index() + 1).map_values(|e: (String, CapabilitySnapshotInput)| e.1) =~= jt.seq().take(jt.index() as int).map_values(|e: (String, CapabilitySnapshotInput)| e.1).push(jt.seq()[jt.index() as int].1));
        }
    }
    proof {
        assert(ents.take(ents.len() as int) =~= ents);
        assert(out@ =~= input);
    }
    Ok(out)
}

pub open spec fn override_input_ok(v: CapabilityOverrideInput) -> bool {
    snapshot_ok(v.capability_code@, v.variant_code@, v.schema_version, v.config@)
}

pub open spec fn override_codes(vs: Seq<CapabilityOverrideInput>) -> Seq<Seq<char>> {
    vs.map_values(|v: CapabilityOverrideInput| v.capability_code@)
}

/// Validates a tenant's capability overrides and orders them by code; a repeated code is
/// refused.
pub fn normalize_overrides(values: Vec<CapabilityOverrideInput>) -> (r: AppResult<Vec<CapabilityOverrideInput>>)
    ensures
        r is Ok <==> (forall|i: int| 0 <= i < values@.len() ==> override_input_ok(#[trigger] values@[i])) && distinct_codes(override_codes(values@)),
        r is Err ==> (r->Err_0 is Config || r->Err_0 is Validation),
        r matches Ok(v) ==> v@ == values@,
{
    let ghost input = values@;
    let mut by_code: StrMap<CapabilityOverrideInput> = StrMap::new();
    let mut k: usize = 0;
    for value in it: values.into_iter()
        invariant
            it.seq() == input,
            k == it.index(),
            by_code.wf(),
            by_code.entries@.len() == k,
            forall|i: int| 0 <= i < k ==> override_input_ok(#[trigger] input[i]),
            distinct_codes(override_codes(input.take(k as int))),
            forall|i: int| 0 <= i < k ==> by_code.get_spec((#[trigger] input[i]).capability_code@) == Some(input[i]),
    {
        validate_capability_snapshot(value.capability_code.as_str(), value.variant_code.as_str(), value.schema_version, value.config.as_str())?;
        let code = value.capability_code.clone();
        let ghost v = value;
        if !by_code.insert_new(code, value) {
            proof {
                assert(k > 0);
                assert(input[0].capability_code@ == SERVICE_ACCOUNTS_CAPABILITY@);
                assert(override_codes(input)[0] == override_codes(input)[k as int]);
            }
            return Err(AppError::Validation(owned("租户能力覆盖代码不能重复")));
        }
        proof {
            assert(v == input[k as int]);
            if k > 0 {
                assert(input[0].capability_code@ == v.capability_code@);
                assert(by_code.get_spec(v.capability_code@) == Some(v));
            }
            assert(override_codes(input.take(k + 1 as int)) =~= override_codes(input.take(k as int)).push(v.capability_code@));
        }
        k = k + 1;
    }
    proof {
        assert(input.take(input.len() as int) =~= input);
        if input.len() >= 2 {
            assert(override_codes(input)[0] == override_codes(input)[1]);
        }
        if input.len() == 1 {
            crate::strset::lemma_map_key(by_code, input[0].capability_code@);
        }
    }
    let ghost ents = by_code.entries@;
    let StrMap { entries } = by_code;
    let mut out: Vec<CapabilityOverrideInput> = Vec::new();
    for e in jt: entries.into_iter()
        invariant
            jt.seq() == ents,
            out@ == jt.seq().take(jt.index() as int).map_values(|e: (String, CapabilityOverrideInput)| e.1),
    {
        let (_, v) = e;
        out.push(v);
        proof {
            assert(jt.seq().take(jt.index() + 1).map_values(|e: (String, CapabilityOverrideInput)| e.1) =~= jt.seq().take(jt.index() as int).map_values(|e: (String, CapabilityOverrideInput)| e.1).push(jt.seq()[jt.index() as int].1));
        }
    }
    proof {
        assert(ents.take(ents.len() as int) =~= ents);
        assert(out@ =~= input);
    }
    Ok(out)
}

/// An existing override that says the same as a requested one.
pub open spec fn override_matches(existing: CapabilityOverrideVo, candidate: CapabilityOverrideInput) -> bool {
    &&& existing.capability_code@ == candidate.capability_code@
    &&& existing.enabled == candidate.enabled
    &&& existing.variant_code@ == candidate.variant_code@
    &&& existing.schema_version == candidate.schema_version
    &&& existing.config@ == candidate.config@
}

/// Some current override says the same as `candidate`.
pub open spec fn matched_by(current: Seq<CapabilityOverrideVo>, candidate: CapabilityOverrideInput) -> bool {
    exists|j: int| 0 <= j < current.len() && override_matches(current[j], candidate)
}

/// The requested overrides are the current ones: as many, and each matched by a current one.
pub open spec fn overrides_unchanged(current: Seq<CapabilityOverrideVo>, target: Seq<CapabilityOverrideInput>) -> bool {
    current.len() == target.len() && forall|i: int| 0 <= i < target.len() ==> matched_by(current, #[trigger] target[i])
}

/// Requested overrides count as a change (and then need the override permission) when one of
/// them names a capability with no current override, or when the current override of its
/// capability (each capability overridden at most once) differs in its flag, variant, schema
/// version or configuration; the same overrides requested again are no change.
pub proof fn law_override_change_is_any_differing_field(
    current: Seq<CapabilityOverrideVo>,
    target: Seq<CapabilityOverrideInput>,
    i: int,
)
    requires
        0 <= i < target.len(),
        forall|j: int, k: int|
            0 <= j < k < current.len() ==> (#[trigger] current[j]).capability_code@ != (#[trigger] current[k]).capability_code@,
    ensures
        (forall|j: int| 0 <= j < current.len() ==> (#[trigger] current[j]).capability_code@ != target[i].capability_code@)
            ==> !overrides_unchanged(current, target),
        forall|k: int|
            0 <= k < current.len() && (#[trigger] current[k]).capability_code@ == target[i].capability_code@ && (
            current[k].enabled != target[i].enabled || current[k].variant_code@ != target[i].variant_code@
                || current[k].schema_version != target[i].schema_version || current[k].config@
                != target[i].config@) ==> !overrides_unchanged(current, target),
        current.len() == target.len() && (forall|j: int|
            0 <= j < target.len() ==> (#[trigger] current[j]).capability_code@ == target[j].capability_code@
                && current[j].enabled == target[j].enabled && current[j].variant_code@ == target[j].variant_code@
                && current[j].schema_version == target[j].schema_version && current[j].config@ == target[j].config@)
            ==> overrides_unchanged(current, target),
{
    if current.len() == target.len() && (forall|j: int|
        0 <= j < target.len() ==> (#[trigger] current[j]).capability_code@ == target[j].capability_code@
            && current[j].enabled == target[j].enabled && current[j].variant_code@ == target[j].variant_code@
            && current[j].schema_version == target[j].schema_version && current[j].config@ == target[j].config@) {
        assert forall|j: int| 0 <= j < target.len() implies matched_by(current, #[trigger] target[j]) by {
            assert(override_matches(current[j], target[j]));
        }
    }
    assert forall|k: int|
        0 <= k < current.len() && (#[trigger] current[k]).capability_code@ == target[i].capability_code@ && (
        current[k].enabled != target[i].enabled || current[k].variant_code@ != target[i].variant_code@
            || current[k].schema_version != target[i].schema_version || current[k].config@ != target[i].config@)
        implies !overrides_unchanged(current, target) by {
        if matched_by(current, target[i]) {
            let j = choose|j: int| 0 <= j < current.len() && override_matches(current[j], target[i]);
            if j != k {
                if j < k {
                    assert(current[j].capability_code@ != current[k].capability_code@);
                } else {
                    assert(current[k].capability_code@ != current[j].capability_code@);
                }
            }
        }
    }
    if forall|j: int| 0 <= j < current.len() ==> (#[trigger] current[j]).capability_code@ != target[i].capability_code@ {
        if matched_by(current, target[i]) {
            let j = choose|j: int| 0 <= j < current.len() && override_matches(current[j], target[i]);
            assert(current[j].capability_code@ != target[i].capability_code@);
        }
    }
}

fn matches_some(current: &[CapabilityOverrideVo], candidate: &CapabilityOverrideInput) -> (r: bool)
    ensures
        r == matched_by(current@, *candidate),
{
    let mut j: usize = 0;
    while j < current.len()
        invariant
            j <= current.len(),
            forall|k: int| 0 <= k < j ==> !override_matches(current@[k], *candidate),
        decreases current.len() - j,
    {
        let e = &current[j];
        if str_eq(e.capability_code.as_str(), candidate.capability_code.as_str()) && e.enabled == candidate.enabled
            && str_eq(e.variant_code.as_str(), candidate.variant_code.as_str()) && e.schema_version == candidate.schema_version
            && str_eq(e.config.as_str(), candidate.config.as_str()) {
            assert(override_matches(current@[j as int], *candidate));
            return true;
        }
        j = j + 1;
    }
    false
}

/// Changing a tenant's overrides needs the override permission; leaving them as they are
/// does not.
pub fn ensure_override_change_allowed(current: &[CapabilityOverrideVo], target: &[CapabilityOverrideInput], allowed: bool) -> (r: AppResult<()>)
    ensures
        r is Ok <==> overrides_unchanged(current@, target@) || allowed,
        r is Err ==> r->Err_0 is PermissionDenied,
{
    let mut unchanged = current.len() == target.len();
    let mut i: usize = 0;
    while i < target.len()
        invariant
            i <= target.len(),
            unchanged == (current@.len() == target@.len() && forall|k: int| 0 <= k < i ==> matched_by(current@, #[trigger] target@[k])),
        decreases target.len() - i,
    {
        let m = matches_some(current, &target[i]);
        unchanged = unchanged && m;
        i = i + 1;
    }
    if unchanged || allowed {
        Ok(())
    } else {
        Err(AppError::PermissionDenied(owned("修改租户能力覆盖需要 tenant:capability:override 权限")))
    }
}

/// A capability of a stored plan version. Times are Unix milliseconds.
pub struct PlanCapabilityRecord {
    pub plan_version_id: i64,
    pub capability_code: String,
    pub variant_code: String,
    pub schema_version: i32,
    pub config: String,
    pub created_at: i64,
    pub updated_at: i64,
}

/// A stored override of a tenant's capability. Times are Unix milliseconds.
pub struct CapabilityOverrideRecord {
    pub tenant_id: String,
    pub capability_code: String,
    pub enabled: bool,
    pub variant_code: String,
    pub schema_version: i32,
    pub config: String,
    pub reason: Option<String>,
    pub changed_by: Option<i64>,
    pub created_at: i64,
    pub updated_at: i64,
}

/// Why a platform administrator's override was written.
pub const OVERRIDE_REASON_PLATFORM: &'static str = "platform_override";

/// The stored capabilities of plan version `version_id`, one per input in order, written at
/// `now`.
pub fn capability_models(version_id: i64, values: Vec<CapabilitySnapshotInput>, now: i64) -> (r: Vec<PlanCapabilityRecord>)
    ensures
        r@.len() == values@.len(),
        forall|i: int|
            0 <= i < values@.len() ==> {
                &&& (#[trigger] r@[i]).plan_version_id == version_id
                &&& r@[i].capability_code == values@[i].capability_code
                &&& r@[i].variant_code == values@[i].variant_code
                &&& r@[i].schema_version == values@[i].schema_version
                &&& r@[i].config == values@[i].config
                &&& r@[i].created_at == now && r@[i].updated_at == now
            },
{
    let mut out: Vec<PlanCapabilityRecord> = Vec::new();
    let mut i: usize = 0;
    while i < values.len()
        invariant
            i <= values.len(),
            out@.len() == i,
            forall|k: int|
                0 <= k < i ==> {
                    &&& (#[trigger] out@[k]).plan_version_id == version_id
                    &&& out@[k].capability_code == values@[k].capability_code
                    &&& out@[k].variant_code == values@[k].variant_code
                    &&& out@[k].schema_version == values@[k].schema_version
                    &&& out@[k].config == values@[k].config
                    &&& out@[k].created_at == now && out@[k].updated_at == now
                },
        decreases values.len() - i,
    {
        let v = &values[i];
        out.push(PlanCapabilityRecord {
            plan_version_id: version_id,
            capability_code: v.capability_code.clone(),
            variant_code: v.variant_code.clone(),
            schema_version: v.schema_version,
            config: v.config.clone(),
            created_at: now,
            updated_at: now,
        });
        i = i + 1;
    }
    out
}

/// The stored overrides of a tenant written by platform administrator `actor_id` at `now`,
/// one per input in order, each marked as a platform override.
pub fn override_models(tenant_id: &str, actor_id: i64, values: Vec<CapabilityOverrideInput>, now: i64) -> (r: Vec<
    CapabilityOverrideRecord,
>)
    ensures
        r@.len() == values@.len(),
        forall|i: int|
            0 <= i < values@.len() ==> {
                &&& (#[trigger] r@[i]).tenant_id@ == tenant_id@
                &&& r@[i].capability_code == values@[i].capability_code
                &&& r@[i].enabled == values@[i].enabled
                &&& r@[i].variant_code == values@[i].variant_code
                &&& r@[i].schema_version == values@[i].schema_version
                &&& r@[i].config == values@[i].config
                &&& r@[i].reason matches Some(reason) && reason@ == OVERRIDE_REASON_PLATFORM@
                &&& r@[i].changed_by == Some(actor_id)
                &&& r@[i].created_at == now && r@[i].updated_at == now
            },
{
    let mut out: Vec<CapabilityOverrideRecord> = Vec::new();
    let mut i: usize = 0;
    while i < values.len()
        invariant
            i <= values.len(),
            out@.len() == i,
            forall|k: int|
                0 <= k < i ==> {
                    &&& (#[trigger] out@[k]).tenant_id@ == tenant_id@
                    &&& out@[k].capability_code == values@[k].capability_code
                    &&& out@[k].enabled == values@[k].enabled
                    &&& out@[k].variant_code == values@[k].variant_code
                    &&& out@[k].schema_version == values@[k].schema_version
                    &&& out@[k].config == values@[k].config
                    &&& out@[k].reason matches Some(reason) && reason@ == OVERRIDE_REASON_PLATFORM@
                    &&& out@[k].changed_by == Some(actor_id)
                    &&& out@[k].created_at == now && out@[k].updated_at == now
                },
        decreases values.len() - i,
    {
        let v = &values[i];
        out.push(CapabilityOverrideRecord {
            tenant_id: owned(tenant_id),
            capability_code: v.capability_code.clone(),
            enabled: v.enabled,
            variant_code: v.variant_code.clone(),
            schema_version: v.schema_version,
            config: v.config.clone(),
            reason: Some(owned(OVERRIDE_REASON_PLATFORM)),
            changed_by: Some(actor_id),
            created_at: now,
            updated_at: now,
        });
        i = i + 1;
    }
    out
}

/// What a session sees of a capability's configuration: the descriptor's client fields that
/// the configuration object holds, with their JSON values. A configuration that is not an
/// object (`None`) shows nothing.
pub open spec fn client_config_value(
    fields: Seq<Seq<char>>,
    config: Option<StrMap<String>>,
    k: Seq<char>,
) -> Option<String> {
    match config {
        Some(c) => if fields.contains(k) {
            c.get_spec(k)
        } else {
            None
        },
        None => None,
    }
}

/// The client view of a capability's configuration (`config`: the object's members, each
/// value as JSON text).
pub fn project_client_config(descriptor: &CapabilityDescriptor, config: Option<&StrMap<String>>) -> (r: StrMap<String>)
    requires
        config matches Some(c) ==> c.wf(),
    ensures
        r.wf(),
        forall|k: Seq<char>| #[trigger] r.get_spec(k) == client_config_value(
            views(descriptor.client_config_fields@),
            match config {
                Some(c) => Some(*c),
                None => None,
            },
            k,
        ),
{
    let mut m: StrMap<String> = StrMap::new();
    let c = match config {
        Some(c) => c,
        None => {
            return m;
        },
    };
    let fields = &descriptor.client_config_fields;
    let mut i: usize = 0;
    while i < fields.len()
        invariant
            i <= fields.len(),
            m.wf(),
            c.wf(),
            config == Some(c),
            fields@ == descriptor.client_config_fields@,
            forall|k: Seq<char>| #[trigger] m.get_spec(k) == client_config_value(
                views(fields@.take(i as int)),
                Some(*c),
                k,
            ),
        decreases fields.len() - i,
    {
        proof {
            assert(views(fields@.take(i + 1)) =~= views(fields@.take(i as int)).push(fields@[i as int]@));
        }
        let ghost before = m;
        let ghost f = fields@[i as int]@;
        match c.get(fields[i].as_str()) {
            Some(v) => {
                m.upsert(fields[i].clone(), v.clone());
            },
            None => {},
        }
        proof {
            let pre = views(fields@.take(i as int));
            let post = views(fields@.take(i + 1));
            assert forall|k: Seq<char>| #[trigger] m.get_spec(k) == client_config_value(post, Some(*c), k) by {
                if k == f {
                    assert(post.contains(k)) by {
                        assert(post[i as int] == f);
                    }
                } else {
                    assert(post.contains(k) == pre.contains(k)) by {
                        if post.contains(k) {
                            let j = choose|j: int| 0 <= j < post.len() && post[j] == k;
                            assert(j < i);
                            assert(pre[j] == k);
                        }
                        if pre.contains(k) {
                            let j = choose|j: int| 0 <= j < pre.len() && pre[j] == k;
                            assert(post[j] == k);
                        }
                    }
                    assert(m.get_spec(k) == before.get_spec(k));
                }
            }
        }
        i = i + 1;
    }
    assert(fields@.take(fields.len() as int) =~= fields@);
    m
}

} // verus!

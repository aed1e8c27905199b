//! What the service-account screens list: stored accounts, credentials, delegations and access
//! audits, each turned into its view with ids in decimal. Times are Unix milliseconds.
use vstd::prelude::*;

use crate::crypto::{fingerprint_domain, framed_parts, law_request_parts_are_framed_apart, spec_request_fingerprint};
use crate::error::{AppError, AppResult};
use crate::service_account::ensure_same_fingerprint;
use crate::text::{id_text, opt_id, opt_id_text, opt_string_view, owned, push_str, signed_decimal};

verus! {

/// Prefix of a credential's public key id.
pub const CREDENTIAL_KEY_PREFIX: &'static str = "rfk_";

/// A stored service account.
pub struct ServiceAccountRecord {
    pub id: i64,
    pub tenant_id: String,
    pub code: String,
    pub name: String,
    pub description: Option<String>,
    pub dept_id: Option<i64>,
    pub status: String,
    pub authorization_version: i32,
    pub max_requests_per_minute: i32,
    pub created_at: i64,
    pub updated_at: i64,
}

/// A service account as listed.
pub struct ServiceAccountVo {
    pub id: String,
    pub code: String,
    pub name: String,
    pub description: Option<String>,
    pub dept_id: Option<String>,
    pub status: String,
    pub authorization_version: i32,
    pub max_requests_per_minute: i32,
    pub created_at: i64,
    pub updated_at: i64,
}

/// A service account with the ids of its roles.
pub struct ServiceAccountDetailVo {
    pub account: ServiceAccountVo,
    pub role_ids: Vec<String>,
}

/// A stored credential of a service account.
pub struct ServiceCredentialRecord {
    pub id: i64,
    pub account_id: i64,
    pub key_id: String,
    pub label: String,
    pub status: String,
    pub expires_at: i64,
    pub last_used_at: Option<i64>,
    pub revoked_at: Option<i64>,
    pub created_at: i64,
}

/// A credential as listed; its key id carries the public prefix.
pub struct ServiceCredentialVo {
    pub id: String,
    pub account_id: String,
    pub key_id: String,
    pub label: String,
    pub status: String,
    pub expires_at: i64,
    pub last_used_at: Option<i64>,
    pub revoked_at: Option<i64>,
    pub created_at: i64,
}

/// A credential just created; the secret is returned only by the first successful creation,
/// never by an idempotent replay.
pub struct CreatedCredentialVo {
    pub credential: ServiceCredentialVo,
    pub secret: Option<String>,
}

/// A stored delegation of a user's capabilities to a service account.
pub struct ServiceDelegationRecord {
    pub id: i64,
    pub tenant_id: String,
    pub account_id: i64,
    pub user_id: i64,
    pub status: String,
    pub version: i32,
    pub not_before: i64,
    pub expires_at: i64,
    pub reason: String,
    pub revoked_at: Option<i64>,
    pub created_at: i64,
}

/// A delegation as listed, with the keys of the capabilities it grants.
pub struct ServiceDelegationVo {
    pub id: String,
    pub account_id: String,
    pub user_id: String,
    pub status: String,
    pub version: i32,
    pub not_before: i64,
    pub expires_at: i64,
    pub reason: String,
    pub capability_keys: Vec<String>,
    pub revoked_at: Option<i64>,
    pub created_at: i64,
}

/// A delegation just created; the token is returned only by the first successful creation.
pub struct CreatedDelegationVo {
    pub delegation: ServiceDelegationVo,
    pub token: Option<String>,
}

/// A stored record of one access made with a service credential.
pub struct ServiceAccessAuditRecord {
    pub id: i64,
    pub request_id: String,
    pub tenant_id: Option<String>,
    pub account_id: Option<i64>,
    pub credential_id: Option<i64>,
    pub delegation_id: Option<i64>,
    pub represented_user_id: Option<i64>,
    pub operation_id: String,
    pub capability_key: String,
    pub required_permission: String,
    pub access_mode: String,
    pub result: String,
    pub reason_code: String,
    pub http_status: i32,
    pub row_count: Option<i32>,
    pub response_bytes: Option<i64>,
    pub tenant_epoch: Option<i32>,
    pub account_authorization_version: Option<i32>,
    pub user_authorization_version: Option<i32>,
    pub delegation_version: Option<i32>,
    pub started_at: i64,
    pub completed_at: i64,
}

/// An access audit as listed.
pub struct ServiceAccessAuditVo {
    pub id: String,
    pub request_id: String,
    pub tenant_id: Option<String>,
    pub account_id: Option<String>,
    pub credential_id: Option<String>,
    pub delegation_id: Option<String>,
    pub represented_user_id: Option<String>,
    pub operation_id: String,
    pub capability_key: String,
    pub required_permission: String,
    pub access_mode: String,
    pub result: String,
    pub reason_code: String,
    pub http_status: i32,
    pub row_count: Option<i32>,
    pub response_bytes: Option<i64>,
    pub tenant_epoch: Option<i32>,
    pub account_authorization_version: Option<i32>,
    pub user_authorization_version: Option<i32>,
    pub delegation_version: Option<i32>,
    pub started_at: i64,
    pub completed_at: i64,
}

/// The listing view of a service account.
pub fn service_account_vo(a: ServiceAccountRecord) -> (r: ServiceAccountVo)
    ensures
        r.id@ == signed_decimal(a.id as int),
        r.code == a.code,
        r.name == a.name,
        r.description == a.description,
        opt_string_view(r.dept_id) == opt_id_text(a.dept_id),
        r.status == a.status,
        r.authorization_version == a.authorization_version,
        r.max_requests_per_minute == a.max_requests_per_minute,
        r.created_at == a.created_at,
        r.updated_at == a.updated_at,
{
    ServiceAccountVo {
        id: id_text(a.id),
        code: a.code,
        name: a.name,
        description: a.description,
        dept_id: opt_id(a.dept_id),
        status: a.status,
        authorization_version: a.authorization_version,
        max_requests_per_minute: a.max_requests_per_minute,
        created_at: a.created_at,
        updated_at: a.updated_at,
    }
}

/// The detail view of a service account: its listing view and its role ids, in order, in
/// decimal.
pub fn service_account_detail_vo(a: ServiceAccountRecord, role_ids: &[i64]) -> (r: ServiceAccountDetailVo)
    ensures
        r.account.id@ == signed_decimal(a.id as int),
        r.account.code == a.code,
        r.account.name == a.name,
        r.account.description == a.description,
        opt_string_view(r.account.dept_id) == opt_id_text(a.dept_id),
        r.account.status == a.status,
        r.account.authorization_version == a.authorization_version,
        r.account.max_requests_per_minute == a.max_requests_per_minute,
        r.account.created_at == a.created_at,
        r.account.updated_at == a.updated_at,
        r.role_ids@.len() == role_ids@.len(),
        forall|i: int| 0 <= i < role_ids@.len() ==> #[trigger] r.role_ids@[i]@ == signed_decimal(role_ids@[i] as int),
{
    let mut ids: Vec<String> = Vec::new();
    let mut i: usize = 0;
    while i < role_ids.len()
        invariant
            i <= role_ids.len(),
            ids@.len() == i,
            forall|k: int| 0 <= k < i ==> #[trigger] ids@[k]@ == signed_decimal(role_ids@[k] as int),
        decreases role_ids.len() - i,
    {
        ids.push(id_text(role_ids[i]));
        i = i + 1;
    }
    ServiceAccountDetailVo { account: service_account_vo(a), role_ids: ids }
}

/// The listing view of a credential: ids in decimal, the key id behind its public prefix.
pub fn service_credential_vo(c: ServiceCredentialRecord) -> (r: ServiceCredentialVo)
    ensures
        r.id@ == signed_decimal(c.id as int),
        r.account_id@ == signed_decimal(c.account_id as int),
        r.key_id@ == CREDENTIAL_KEY_PREFIX@ + c.key_id@,
        r.label == c.label,
        r.status == c.status,
        r.expires_at == c.expires_at,
        r.last_used_at == c.last_used_at,
        r.revoked_at == c.revoked_at,
        r.created_at == c.created_at,
{
    let mut key_id = owned(CREDENTIAL_KEY_PREFIX);
    push_str(&mut key_id, c.key_id.as_str());
    ServiceCredentialVo {
        id: id_text(c.id),
        account_id: id_text(c.account_id),
        key_id,
        label: c.label,
        status: c.status,
        expires_at: c.expires_at,
        last_used_at: c.last_used_at,
        revoked_at: c.revoked_at,
        created_at: c.created_at,
    }
}

/// The listing view of a delegation with the given capability keys.
pub fn delegation_vo_with_keys(d: ServiceDelegationRecord, capability_keys: Vec<String>) -> (r: ServiceDelegationVo)
    ensures
        r.id@ == signed_decimal(d.id as int),
        r.account_id@ == signed_decimal(d.account_id as int),
        r.user_id@ == signed_decimal(d.user_id as int),
        r.status == d.status,
        r.version == d.version,
        r.not_before == d.not_before,
        r.expires_at == d.expires_at,
        r.reason == d.reason,
        r.capability_keys == capability_keys,
        r.revoked_at == d.revoked_at,
        r.created_at == d.created_at,
{
    ServiceDelegationVo {
        id: id_text(d.id),
        account_id: id_text(d.account_id),
        user_id: id_text(d.user_id),
        status: d.status,
        version: d.version,
        not_before: d.not_before,
        expires_at: d.expires_at,
        reason: d.reason,
        capability_keys,
        revoked_at: d.revoked_at,
        created_at: d.created_at,
    }
}

/// The listing view of an access audit: ids in decimal, everything else as stored.
pub fn service_access_audit_vo(a: ServiceAccessAuditRecord) -> (r: ServiceAccessAuditVo)
    ensures
        r.id@ == signed_decimal(a.id as int),
        r.request_id == a.request_id,
        r.tenant_id == a.tenant_id,
        opt_string_view(r.account_id) == opt_id_text(a.account_id),
        opt_string_view(r.credential_id) == opt_id_text(a.credential_id),
        opt_string_view(r.delegation_id) == opt_id_text(a.delegation_id),
        opt_string_view(r.represented_user_id) == opt_id_text(a.represented_user_id),
        r.operation_id == a.operation_id,
        r.capability_key == a.capability_key,
        r.required_permission == a.required_permission,
        r.access_mode == a.access_mode,
        r.result == a.result,
        r.reason_code == a.reason_code,
        r.http_status == a.http_status,
        r.row_count == a.row_count,
        r.response_bytes == a.response_bytes,
        r.tenant_epoch == a.tenant_epoch,
        r.account_authorization_version == a.account_authorization_version,
        r.user_authorization_version == a.user_authorization_version,
        r.delegation_version == a.delegation_version,
        r.started_at == a.started_at,
        r.completed_at == a.completed_at,
{
    ServiceAccessAuditVo {
        id: id_text(a.id),
        request_id: a.request_id,
        tenant_id: a.tenant_id,
        account_id: opt_id(a.account_id),
        credential_id: opt_id(a.credential_id),
        delegation_id: opt_id(a.delegation_id),
        represented_user_id: opt_id(a.represented_user_id),
        operation_id: a.operation_id,
        capability_key: a.capability_key,
        required_permission: a.required_permission,
        access_mode: a.access_mode,
        result: a.result,
        reason_code: a.reason_code,
        http_status: a.http_status,
        row_count: a.row_count,
        response_bytes: a.response_bytes,
        tenant_epoch: a.tenant_epoch,
        account_authorization_version: a.account_authorization_version,
        user_authorization_version: a.user_authorization_version,
        delegation_version: a.delegation_version,
        started_at: a.started_at,
        completed_at: a.completed_at,
    }
}

/// The keys, in order, of the capability rows `(delegation id, key)` of delegation `id`.
pub open spec fn keys_of_delegation(capabilities: Seq<(i64, String)>, id: i64) -> Seq<Seq<char>>
    decreases capabilities.len(),
{
    if capabilities.len() == 0 {
        Seq::empty()
    } else {
        let rest = keys_of_delegation(capabilities.drop_last(), id);
        if capabilities.last().0 == id {
            rest.push(capabilities.last().1@)
        } else {
            rest
        }
    }
}

/// Some row before position `i` has the same id as row `i`.
pub open spec fn id_seen_before(rows: Seq<ServiceDelegationRecord>, i: int) -> bool {
    exists|j: int| 0 <= j < i && #[trigger] rows[j].id == rows[i].id
}

fn seen_before(rows: &[ServiceDelegationRecord], i: usize) -> (r: bool)
    requires
        i < rows.len(),
    ensures
        r == id_seen_before(rows@, i as int),
{
    let mut j: usize = 0;
    while j < i
        invariant
            i < rows.len(),
            j <= i,
            forall|k: int| 0 <= k < j ==> rows@[k].id != rows@[i as int].id,
        decreases i - j,
    {
        if rows[j].id == rows[i].id {
            return true;
        }
        j = j + 1;
    }
    false
}

fn keys_for(capabilities: &[(i64, String)], id: i64) -> (r: Vec<String>)
    ensures
        r@.map_values(|s: String| s@) == keys_of_delegation(capabilities@, id),
{
    let mut out: Vec<String> = Vec::new();
    let mut i: usize = 0;
    while i < capabilities.len()
        invariant
            i <= capabilities.len(),
            out@.map_values(|s: String| s@) == keys_of_delegation(capabilities@.take(i as int), id),
        decreases capabilities.len() - i,
    {
        proof {
            assert(capabilities@.take(i + 1).drop_last() =~= capabilities@.take(i as int));
        }
        if capabilities[i].0 == id {
            out.push(capabilities[i].1.clone());
            proof {
                assert(out@.map_values(|s: String| s@) =~= keys_of_delegation(capabilities@.take(i as int), id).push(
                    capabilities@[i as int].1@,
                ));
            }
        }
        i = i + 1;
    }
    assert(capabilities@.take(capabilities.len() as int) =~= capabilities@);
    out
}

/// The listing views of delegation rows, in order, each with the keys of its capability rows
/// `(delegation id, key)` in the order given. A row whose id an earlier row already had gets no
/// keys: the keys of an id are handed out once.
pub fn delegations_with_capabilities(rows: Vec<ServiceDelegationRecord>, capabilities: &[(i64, String)]) -> (r: Vec<
    ServiceDelegationVo,
>)
    ensures
        r@.len() == rows@.len(),
        forall|i: int|
            0 <= i < rows@.len() ==> {
                &&& (#[trigger] r@[i]).id@ == signed_decimal(rows@[i].id as int)
                &&& r@[i].account_id@ == signed_decimal(rows@[i].account_id as int)
                &&& r@[i].user_id@ == signed_decimal(rows@[i].user_id as int)
                &&& r@[i].status == rows@[i].status
                &&& r@[i].version == rows@[i].version
                &&& r@[i].not_before == rows@[i].not_before
                &&& r@[i].expires_at == rows@[i].expires_at
                &&& r@[i].reason == rows@[i].reason
                &&& r@[i].revoked_at == rows@[i].revoked_at
                &&& r@[i].created_at == rows@[i].created_at
                &&& r@[i].capability_keys@.map_values(|s: String| s@) == if id_seen_before(rows@, i) {
                    Seq::empty()
                } else {
                    keys_of_delegation(capabilities@, rows@[i].id)
                }
            },
{
    let mut flags: Vec<bool> = Vec::new();
    let mut j: usize = 0;
    while j < rows.len()
        invariant
            j <= rows.len(),
            flags@.len() == j,
            forall|k: int| 0 <= k < j ==> #[trigger] flags@[k] == id_seen_before(rows@, k),
        decreases rows.len() - j,
    {
        flags.push(seen_before(rows.as_slice(), j));
        j = j + 1;
    }
    let mut out: Vec<ServiceDelegationVo> = Vec::new();
    let ghost rs = rows@;
    let n = rows.len();
    let mut rows = rows;
    let mut i: usize = 0;
    while i < n
        invariant
            n == rs.len(),
            rows@.len() + i == rs.len(),
            flags@.len() == rs.len(),
            forall|k: int| 0 <= k < rs.len() ==> #[trigger] flags@[k] == id_seen_before(rs, k),
            forall|k: int| 0 <= k < rows@.len() ==> #[trigger] rows@[k] == rs[k + i],
            out@.len() == i,
            forall|k: int|
                0 <= k < i ==> {
                    &&& (#[trigger] out@[k]).id@ == signed_decimal(rs[k].id as int)
                    &&& out@[k].account_id@ == signed_decimal(rs[k].account_id as int)
                    &&& out@[k].user_id@ == signed_decimal(rs[k].user_id as int)
                    &&& out@[k].status == rs[k].status
                    &&& out@[k].version == rs[k].version
                    &&& out@[k].not_before == rs[k].not_before
                    &&& out@[k].expires_at == rs[k].expires_at
                    &&& out@[k].reason == rs[k].reason
                    &&& out@[k].revoked_at == rs[k].revoked_at
                    &&& out@[k].created_at == rs[k].created_at
                    &&& out@[k].capability_keys@.map_values(|s: String| s@) == if id_seen_before(rs, k) {
                        Seq::empty()
                    } else {
                        keys_of_delegation(capabilities@, rs[k].id)
                    }
                },
        decreases n - i,
    {
        let seen = flags[i];
        let row = rows.remove(0);
        let keys = if seen {
            Vec::new()
        } else {
            keys_for(capabilities, row.id)
        };
        proof {
            if !seen {
                assert(keys@.map_values(|s: String| s@) == keys_of_delegation(capabilities@, rs[i as int].id));
            } else {
                assert(keys@.map_values(|s: String| s@) =~= Seq::<Seq<char>>::empty());
            }
        }
        out.push(delegation_vo_with_keys(row, keys));
        i = i + 1;
    }
    out
}

/// A credential request replayed under an idempotency key already used: the stored
/// credential is returned again, without its secret, when the request's fingerprint is the one
/// stored; a different request under that key is a conflict.
pub fn replay_credential(
    existing: ServiceCredentialRecord,
    stored_fingerprint: &[u8],
    requested_fingerprint: &[u8],
) -> (r: AppResult<CreatedCredentialVo>)
    ensures
        r is Ok <==> stored_fingerprint@ == requested_fingerprint@,
        r is Err ==> r->Err_0 is Conflict,
        r matches Ok(v) ==> {
            &&& v.secret is None
            &&& v.credential.id@ == signed_decimal(existing.id as int)
            &&& v.credential.account_id@ == signed_decimal(existing.account_id as int)
            &&& v.credential.key_id@ == CREDENTIAL_KEY_PREFIX@ + existing.key_id@
            &&& v.credential.label == existing.label
            &&& v.credential.status == existing.status
            &&& v.credential.expires_at == existing.expires_at
        },
{
    ensure_same_fingerprint(stored_fingerprint, requested_fingerprint)?;
    Ok(CreatedCredentialVo { credential: service_credential_vo(existing), secret: None })
}

/// A delegation request replayed under an idempotency key already used: the stored delegation
/// (with its capability keys) is returned again, without a token, when the request's
/// fingerprint is the one stored; a different request under that key is a conflict.
pub fn replay_delegation(
    existing: ServiceDelegationRecord,
    capability_keys: Vec<String>,
    stored_fingerprint: &[u8],
    requested_fingerprint: &[u8],
) -> (r: AppResult<CreatedDelegationVo>)
    ensures
        r is Ok <==> stored_fingerprint@ == requested_fingerprint@,
        r is Err ==> r->Err_0 is Conflict,
        r matches Ok(v) ==> {
            &&& v.token is None
            &&& v.delegation.id@ == signed_decimal(existing.id as int)
            &&& v.delegation.account_id@ == signed_decimal(existing.account_id as int)
            &&& v.delegation.user_id@ == signed_decimal(existing.user_id as int)
            &&& v.delegation.status == existing.status
            &&& v.delegation.expires_at == existing.expires_at
            &&& v.delegation.reason == existing.reason
            &&& v.delegation.capability_keys == capability_keys
        },
{
    ensure_same_fingerprint(stored_fingerprint, requested_fingerprint)?;
    Ok(CreatedDelegationVo { delegation: delegation_vo_with_keys(existing, capability_keys), token: None })
}

/// The message whose SHA-256 is the fingerprint of a credential request.
pub open spec fn credential_message(label: Seq<char>, expires_at_text: Seq<char>) -> Seq<u8> {
    fingerprint_domain() + framed_parts(seq![vstd::utf8::encode_utf8(label), vstd::utf8::encode_utf8(expires_at_text)])
}

/// Replaying a credential request under its idempotency key: the same label and expiry give the
/// same fingerprint, so the replay returns the stored credential without a secret; a different
/// label or expiry is hashed from a different message (so, SHA-256 aside, it is a conflict).
pub proof fn law_credential_replay(label: Seq<char>, expires_at_text: Seq<char>, label2: Seq<char>, expires_at_text2: Seq<char>)
    requires
        vstd::utf8::encode_utf8(label).len() <= u64::MAX,
        vstd::utf8::encode_utf8(expires_at_text).len() <= u64::MAX,
        vstd::utf8::encode_utf8(label2).len() <= u64::MAX,
        vstd::utf8::encode_utf8(expires_at_text2).len() <= u64::MAX,
    ensures
        label == label2 && expires_at_text == expires_at_text2 ==> spec_request_fingerprint(
            seq![vstd::utf8::encode_utf8(label), vstd::utf8::encode_utf8(expires_at_text)],
        ) == spec_request_fingerprint(seq![vstd::utf8::encode_utf8(label2), vstd::utf8::encode_utf8(expires_at_text2)]),
        !(label == label2 && expires_at_text == expires_at_text2) ==> credential_message(label, expires_at_text)
            != credential_message(label2, expires_at_text2),
{
    let p = seq![vstd::utf8::encode_utf8(label), vstd::utf8::encode_utf8(expires_at_text)];
    let q = seq![vstd::utf8::encode_utf8(label2), vstd::utf8::encode_utf8(expires_at_text2)];
    if credential_message(label, expires_at_text) == credential_message(label2, expires_at_text2) {
        law_request_parts_are_framed_apart(p, q);
        assert(p[0] == q[0] && p[1] == q[1]);
        vstd::utf8::encode_utf8_decode_utf8(label);
        vstd::utf8::encode_utf8_decode_utf8(label2);
        vstd::utf8::encode_utf8_decode_utf8(expires_at_text);
        vstd::utf8::encode_utf8_decode_utf8(expires_at_text2);
    }
}

/// The message whose SHA-256 is the fingerprint of a delegation request, from its four texts
/// (account id, joined capability keys, requested expiry, reason).
pub open spec fn delegation_message(parts: Seq<Seq<char>>) -> Seq<u8> {
    fingerprint_domain() + framed_parts(parts.map_values(|t: Seq<char>| vstd::utf8::encode_utf8(t)))
}

/// Replaying a delegation request under its idempotency key: the same four texts give the same
/// fingerprint, so the replay returns the stored delegation without a token; any text that
/// differs is hashed from a different message (so, SHA-256 aside, it is a conflict).
pub proof fn law_delegation_replay(parts: Seq<Seq<char>>, parts2: Seq<Seq<char>>)
    requires
        parts.len() == 4,
        parts2.len() == 4,
        forall|i: int| 0 <= i < 4 ==> vstd::utf8::encode_utf8(#[trigger] parts[i]).len() <= u64::MAX,
        forall|i: int| 0 <= i < 4 ==> vstd::utf8::encode_utf8(#[trigger] parts2[i]).len() <= u64::MAX,
    ensures
        parts == parts2 <==> delegation_message(parts) == delegation_message(parts2),
{
    let p = parts.map_values(|t: Seq<char>| vstd::utf8::encode_utf8(t));
    let q = parts2.map_values(|t: Seq<char>| vstd::utf8::encode_utf8(t));
    if delegation_message(parts) == delegation_message(parts2) {
        assert forall|i: int| 0 <= i < p.len() implies (#[trigger] p[i]).len() <= u64::MAX by {
            assert(p[i] == vstd::utf8::encode_utf8(parts[i]));
        }
        assert forall|i: int| 0 <= i < q.len() implies (#[trigger] q[i]).len() <= u64::MAX by {
            assert(q[i] == vstd::utf8::encode_utf8(parts2[i]));
        }
        law_request_parts_are_framed_apart(p, q);
        assert forall|i: int| 0 <= i < 4 implies parts[i] == parts2[i] by {
            assert(p[i] == q[i]);
            vstd::utf8::encode_utf8_decode_utf8(parts[i]);
            vstd::utf8::encode_utf8_decode_utf8(parts2[i]);
        }
        assert(parts =~= parts2);
    }
}

} // verus!

//! What the transfer screens show of stored bundles and transfers. Times are Unix
//! milliseconds; a stored count object is given as its entries, each with its value when that
//! value is an unsigned integer.
use vstd::prelude::*;

use crate::error::{AppError, AppResult};
use crate::strset::StrMap;
use crate::text::{id_text, owned, signed_decimal, str_eq};
use crate::transfer::lifecycle::{spec_status_name, TransferState};

verus! {

/// The counts that a stored count object holds: for each key, the value of its last entry
/// that is an unsigned integer.
pub open spec fn count_of(entries: Seq<(String, Option<u64>)>, k: Seq<char>) -> Option<u64>
    decreases entries.len(),
{
    if entries.len() == 0 {
        None
    } else if entries.last().0@ == k && entries.last().1 is Some {
        entries.last().1
    } else {
        count_of(entries.drop_last(), k)
    }
}

/// The counts of a stored count object; entries whose value is not an unsigned integer are
/// left out.
pub fn json_counts(entries: &[(String, Option<u64>)]) -> (r: StrMap<u64>)
    ensures
        r.wf(),
        forall|k: Seq<char>| #[trigger] r.get_spec(k) == count_of(entries@, k),
{
    let mut m: StrMap<u64> = StrMap::new();
    let mut i: usize = 0;
    while i < entries.len()
        invariant
            i <= entries.len(),
            m.wf(),
            forall|k: Seq<char>| #[trigger] m.get_spec(k) == count_of(entries@.take(i as int), k),
        decreases entries.len() - i,
    {
        proof {
            assert(entries@.take(i + 1).drop_last() =~= entries@.take(i as int));
        }
        match entries[i].1 {
            Some(v) => {
                let k = entries[i].0.clone();
                m.upsert(k, v);
            },
            None => {},
        }
        i = i + 1;
    }
    assert(entries@.take(entries.len() as int) =~= entries@);
    m
}

/// A stored configuration bundle.
pub struct BundleRecord {
    pub id: i64,
    pub tenant_id: String,
    pub origin: String,
    pub source_tenant_key: String,
    pub source_tenant_name_snapshot: String,
    pub package_schema_version: String,
    pub source_app_version: String,
    pub sha256: Option<String>,
    pub resource_counts: Vec<(String, Option<u64>)>,
    pub item_count: i32,
    pub status: String,
    pub error_summary: Option<String>,
    pub expires_at: Option<i64>,
    pub created_at: i64,
    pub updated_at: i64,
}

/// A bundle as listed.
pub struct TenantConfigBundleVo {
    pub id: String,
    pub origin: String,
    pub source_tenant_key: String,
    pub source_tenant_name: String,
    pub package_schema_version: String,
    pub source_app_version: String,
    pub sha256: Option<String>,
    pub resource_counts: StrMap<u64>,
    pub item_count: i32,
    pub status: String,
    pub error_summary: Option<String>,
    pub expires_at: Option<i64>,
    pub created_at: i64,
    pub updated_at: i64,
}

/// The bundle of a transfer as the transfer shows it: no ids, no file, no error.
pub struct TenantConfigBundleSummaryVo {
    pub origin: String,
    pub source_tenant_key: String,
    pub source_tenant_name: String,
    pub package_schema_version: String,
    pub source_app_version: String,
    pub sha256: Option<String>,
    pub resource_counts: StrMap<u64>,
    pub item_count: i32,
    pub status: String,
    pub expires_at: Option<i64>,
    pub created_at: i64,
}

/// A stored transfer: its identity, its lifecycle state, the counts of its plan's actions and
/// when it was created.
pub struct TransferRecord {
    pub id: i64,
    pub tenant_id: String,
    pub bundle_id: i64,
    pub state: TransferState,
    pub change_counts: Vec<(String, Option<u64>)>,
    pub created_at: i64,
}

/// A transfer as listed, with the summary of its bundle.
pub struct TenantConfigTransferVo {
    pub id: String,
    pub bundle_summary: TenantConfigBundleSummaryVo,
    pub status: String,
    pub target_configuration_version: i64,
    pub target_authorization_epoch: i32,
    pub plan_hash: Option<String>,
    pub preview_calculated_at: Option<i64>,
    pub change_counts: StrMap<u64>,
    pub error_summary: Option<String>,
    pub applied_configuration_version: Option<i64>,
    pub applied_authorization_epoch: Option<i32>,
    pub rollback_expires_at: Option<i64>,
    pub created_at: i64,
    pub updated_at: i64,
}

fn clone_opt(s: &Option<String>) -> (r: Option<String>)
    ensures
        r == *s,
{
    match s {
        Some(t) => Some(t.clone()),
        None => None,
    }
}

/// The listing view of a bundle.
pub fn bundle_vo(b: BundleRecord) -> (r: TenantConfigBundleVo)
    ensures
        r.id@ == signed_decimal(b.id as int),
        r.origin == b.origin,
        r.source_tenant_key == b.source_tenant_key,
        r.source_tenant_name == b.source_tenant_name_snapshot,
        r.package_schema_version == b.package_schema_version,
        r.source_app_version == b.source_app_version,
        r.sha256 == b.sha256,
        r.resource_counts.wf(),
        forall|k: Seq<char>| #[trigger] r.resource_counts.get_spec(k) == count_of(b.resource_counts@, k),
        r.item_count == b.item_count,
        r.status == b.status,
        r.error_summary == b.error_summary,
        r.expires_at == b.expires_at,
        r.created_at == b.created_at,
        r.updated_at == b.updated_at,
{
    let resource_counts = json_counts(b.resource_counts.as_slice());
    TenantConfigBundleVo {
        id: id_text(b.id),
        origin: b.origin,
        source_tenant_key: b.source_tenant_key,
        source_tenant_name: b.source_tenant_name_snapshot,
        package_schema_version: b.package_schema_version,
        source_app_version: b.source_app_version,
        sha256: b.sha256,
        resource_counts,
        item_count: b.item_count,
        status: b.status,
        error_summary: b.error_summary,
        expires_at: b.expires_at,
        created_at: b.created_at,
        updated_at: b.updated_at,
    }
}

/// The summary of a bundle that a transfer shows.
pub fn bundle_summary_vo(b: &BundleRecord) -> (r: TenantConfigBundleSummaryVo)
    ensures
        r.origin == b.origin,
        r.source_tenant_key == b.source_tenant_key,
        r.source_tenant_name == b.source_tenant_name_snapshot,
        r.package_schema_version == b.package_schema_version,
        r.source_app_version == b.source_app_version,
        r.sha256 == b.sha256,
        r.resource_counts.wf(),
        forall|k: Seq<char>| #[trigger] r.resource_counts.get_spec(k) == count_of(b.resource_counts@, k),
        r.item_count == b.item_count,
        r.status == b.status,
        r.expires_at == b.expires_at,
        r.created_at == b.created_at,
{
    TenantConfigBundleSummaryVo {
        origin: b.origin.clone(),
        source_tenant_key: b.source_tenant_key.clone(),
        source_tenant_name: b.source_tenant_name_snapshot.clone(),
        package_schema_version: b.package_schema_version.clone(),
        source_app_version: b.source_app_version.clone(),
        sha256: clone_opt(&b.sha256),
        resource_counts: json_counts(b.resource_counts.as_slice()),
        item_count: b.item_count,
        status: b.status.clone(),
        expires_at: b.expires_at,
        created_at: b.created_at,
    }
}

impl TenantConfigTransferVo {
    /// The listing view of a transfer with its bundle. The bundle must be the transfer's own,
    /// of the same tenant; anything else is an internal error.
    pub fn from_models(t: TransferRecord, bundle: &BundleRecord) -> (r: AppResult<TenantConfigTransferVo>)
        ensures
            r is Err <==> !(t.tenant_id@ == bundle.tenant_id@ && t.bundle_id == bundle.id),
            r is Err ==> r->Err_0 is Internal,
            r matches Ok(v) ==> {
                &&& v.id@ == signed_decimal(t.id as int)
                &&& v.bundle_summary.origin == bundle.origin
                &&& v.bundle_summary.source_tenant_key == bundle.source_tenant_key
                &&& v.bundle_summary.source_tenant_name == bundle.source_tenant_name_snapshot
                &&& v.bundle_summary.package_schema_version == bundle.package_schema_version
                &&& v.bundle_summary.source_app_version == bundle.source_app_version
                &&& v.bundle_summary.sha256 == bundle.sha256
                &&& v.bundle_summary.resource_counts.wf()
                &&& forall|k: Seq<char>| #[trigger] v.bundle_summary.resource_counts.get_spec(k) == count_of(
                    bundle.resource_counts@,
                    k,
                )
                &&& v.bundle_summary.item_count == bundle.item_count
                &&& v.bundle_summary.status == bundle.status
                &&& v.bundle_summary.expires_at == bundle.expires_at
                &&& v.bundle_summary.created_at == bundle.created_at
                &&& v.status@ == spec_status_name(t.state.status)
                &&& v.target_configuration_version == t.state.target_configuration_version
                &&& v.target_authorization_epoch == t.state.target_authorization_epoch
                &&& v.plan_hash == t.state.plan_hash
                &&& v.preview_calculated_at == t.state.preview_calculated_at
                &&& v.change_counts.wf()
                &&& forall|k: Seq<char>| #[trigger] v.change_counts.get_spec(k) == count_of(t.change_counts@, k)
                &&& v.error_summary == t.state.error_summary
                &&& v.applied_configuration_version == t.state.applied_configuration_version
                &&& v.applied_authorization_epoch == t.state.applied_authorization_epoch
                &&& v.rollback_expires_at == t.state.rollback_expires_at
                &&& v.created_at == t.created_at
                &&& v.updated_at == t.state.updated_at
            },
    {
        if !str_eq(t.tenant_id.as_str(), bundle.tenant_id.as_str()) || t.bundle_id != bundle.id {
            return Err(AppError::Internal(owned("配置迁移关联的配置包无效")));
        }
        let change_counts = json_counts(t.change_counts.as_slice());
        let TransferRecord { id, tenant_id: _, bundle_id: _, state, change_counts: _, created_at } = t;
        Ok(TenantConfigTransferVo {
            id: id_text(id),
            bundle_summary: bundle_summary_vo(bundle),
            status: owned(state.status.as_str()),
            target_configuration_version: state.target_configuration_version,
            target_authorization_epoch: state.target_authorization_epoch,
            plan_hash: state.plan_hash,
            preview_calculated_at: state.preview_calculated_at,
            change_counts,
            error_summary: state.error_summary,
            applied_configuration_version: state.applied_configuration_version,
            applied_authorization_epoch: state.applied_authorization_epoch,
            rollback_expires_at: state.rollback_expires_at,
            created_at,
            updated_at: state.updated_at,
        })
    }
}

} // verus!

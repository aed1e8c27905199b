//! Writing the changed posts, dictionaries and system parameters of a package: a changed item
//! updates the live target row whose key matches it without ASCII case, keeping that row's id
//! and creation time, or is inserted under a new id; either way it is written live and now.
use vstd::prelude::*;

use crate::config::StoredConfig;
use crate::dict::{DictDataRecord, StoredDictType};
use crate::error::{AppError, AppResult};
use crate::post::PostRecord;
use crate::strset::StrSet;
use crate::text::{lower_seq, owned, str_eq};
use crate::transfer::apply::dict_data_key;
use crate::transfer::apply::spec_dict_data_key;
use crate::transfer::keys::normalize_stable_key;
use crate::transfer::portable::{PortableConfig, PortableDictData, PortableDictType, PortablePost};
use crate::upload::DEL_FLAG_NORMAL;

verus! {

/// A target row as the apply finds it: its id, when it was created and its key.
pub struct ExistingRow {
    pub id: i64,
    pub created_at: i64,
    pub key: String,
}

/// A target dictionary entry as the apply finds it.
pub struct ExistingDictData {
    pub id: i64,
    pub created_at: i64,
    pub type_code: String,
    pub value: String,
}

/// The id and creation time of the first row whose key equals `key` without ASCII case.
pub open spec fn first_row_with_key(rows: Seq<ExistingRow>, key: Seq<char>) -> Option<(i64, i64)>
    decreases rows.len(),
{
    if rows.len() == 0 {
        None
    } else if lower_seq(rows[0].key@) == lower_seq(key) {
        Some((rows[0].id, rows[0].created_at))
    } else {
        first_row_with_key(rows.drop_first(), key)
    }
}

/// The first target row with the item's key.
pub fn find_existing_row(rows: &[ExistingRow], key: &str) -> (r: Option<(i64, i64)>)
    ensures
        r == first_row_with_key(rows@, key@),
{
    let k = normalize_stable_key(key);
    let mut i: usize = 0;
    assert(rows@.skip(0) =~= rows@);
    while i < rows.len()
        invariant
            i <= rows.len(),
            k@ == lower_seq(key@),
            first_row_with_key(rows@, key@) == first_row_with_key(rows@.skip(i as int), key@),
        decreases rows.len() - i,
    {
        assert(rows@.skip(i as int).drop_first() =~= rows@.skip(i + 1 as int));
        assert(rows@.skip(i as int)[0] == rows@[i as int]);
        let rk = normalize_stable_key(rows[i].key.as_str());
        if str_eq(rk.as_str(), k.as_str()) {
            return Some((rows[i].id, rows[i].created_at));
        }
        i = i + 1;
    }
    assert(rows@.skip(rows.len() as int).len() == 0);
    None
}

/// The id and creation time of the first entry of the same type and value, both without
/// ASCII case.
pub open spec fn first_dict_data(rows: Seq<ExistingDictData>, type_code: Seq<char>, value: Seq<char>) -> Option<(i64, i64)>
    decreases rows.len(),
{
    if rows.len() == 0 {
        None
    } else if lower_seq(rows[0].type_code@) == lower_seq(type_code) && lower_seq(rows[0].value@) == lower_seq(value) {
        Some((rows[0].id, rows[0].created_at))
    } else {
        first_dict_data(rows.drop_first(), type_code, value)
    }
}

/// The first target entry of the item's type and value.
pub fn find_existing_dict_data(rows: &[ExistingDictData], type_code: &str, value: &str) -> (r: Option<(i64, i64)>)
    ensures
        r == first_dict_data(rows@, type_code@, value@),
{
    let t = normalize_stable_key(type_code);
    let v = normalize_stable_key(value);
    let mut i: usize = 0;
    assert(rows@.skip(0) =~= rows@);
    while i < rows.len()
        invariant
            i <= rows.len(),
            t@ == lower_seq(type_code@),
            v@ == lower_seq(value@),
            first_dict_data(rows@, type_code@, value@) == first_dict_data(rows@.skip(i as int), type_code@, value@),
        decreases rows.len() - i,
    {
        assert(rows@.skip(i as int).drop_first() =~= rows@.skip(i + 1 as int));
        assert(rows@.skip(i as int)[0] == rows@[i as int]);
        let rt = normalize_stable_key(rows[i].type_code.as_str());
        let rv = normalize_stable_key(rows[i].value.as_str());
        if str_eq(rt.as_str(), t.as_str()) && str_eq(rv.as_str(), v.as_str()) {
            return Some((rows[i].id, rows[i].created_at));
        }
        i = i + 1;
    }
    assert(rows@.skip(rows.len() as int).len() == 0);
    None
}

/// The id a written row gets: the existing row's, or the new one.
pub open spec fn written_id(existing: Option<(i64, i64)>, new_id: i64) -> i64 {
    match existing {
        Some(e) => e.0,
        None => new_id,
    }
}

/// When a written row was created: the existing row's time, or now.
pub open spec fn written_created_at(existing: Option<(i64, i64)>, now: i64) -> i64 {
    match existing {
        Some(e) => e.1,
        None => now,
    }
}

/// Whether applying the plan writes the item with key `key`: `changed` (the normalized keys
/// that the plan changes of the item's resource type) holds its key without ASCII case.
pub fn is_changed(changed: &StrSet, key: &str) -> (r: bool)
    requires
        changed.wf(),
    ensures
        r == changed.set().contains(lower_seq(key@)),
{
    let k = normalize_stable_key(key);
    changed.contains(k.as_str())
}

/// The post row that applying a changed package post writes (`bool`: it updates a row).
pub fn post_write(tenant_id: &str, item: &PortablePost, existing: Option<(i64, i64)>, new_id: i64, now: i64) -> (r: (
    PostRecord,
    bool,
))
    ensures
        r.1 == existing is Some,
        r.0.id == written_id(existing, new_id),
        r.0.tenant_id@ == tenant_id@,
        r.0.name == item.name,
        r.0.code == item.code,
        r.0.sort == item.sort,
        r.0.status == item.status,
        r.0.remark == item.remark,
        r.0.del_flag@ == DEL_FLAG_NORMAL@,
        r.0.created_at == written_created_at(existing, now),
        r.0.updated_at == now,
{
    let row = PostRecord {
        id: match existing {
            Some(e) => e.0,
            None => new_id,
        },
        tenant_id: owned(tenant_id),
        name: item.name.clone(),
        code: item.code.clone(),
        sort: item.sort,
        status: item.status.clone(),
        remark: clone_opt(&item.remark),
        del_flag: owned(DEL_FLAG_NORMAL),
        created_at: match existing {
            Some(e) => e.1,
            None => now,
        },
        updated_at: now,
    };
    (row, existing.is_some())
}

fn clone_opt(s: &Option<String>) -> (r: Option<String>)
    ensures
        r == *s,
{
    match s {
        Some(t) => Some(t.clone()),
        None => None,
    }
}

/// The dictionary type row that applying a changed package type writes.
pub fn dict_type_write(tenant_id: &str, item: &PortableDictType, existing: Option<(i64, i64)>, new_id: i64, now: i64) -> (r: (
    StoredDictType,
    bool,
))
    ensures
        r.1 == existing is Some,
        r.0.id == written_id(existing, new_id),
        r.0.tenant_id@ == tenant_id@,
        r.0.name == item.name,
        r.0.code == item.code,
        r.0.status == item.status,
        r.0.remark == item.remark,
        r.0.del_flag@ == DEL_FLAG_NORMAL@,
        r.0.created_at == written_created_at(existing, now),
        r.0.updated_at == now,
{
    let row = StoredDictType {
        id: match existing {
            Some(e) => e.0,
            None => new_id,
        },
        tenant_id: owned(tenant_id),
        name: item.name.clone(),
        code: item.code.clone(),
        status: item.status.clone(),
        remark: clone_opt(&item.remark),
        del_flag: owned(DEL_FLAG_NORMAL),
        created_at: match existing {
            Some(e) => e.1,
            None => now,
        },
        updated_at: now,
    };
    (row, existing.is_some())
}

/// The key under which a package dictionary entry is planned: its type's length, its type and
/// its value.
pub fn dict_data_plan_key(item: &PortableDictData) -> (r: String)
    ensures
        r@ == spec_dict_data_key(item.type_code@, item.value@),
{
    dict_data_key(item.type_code.as_str(), item.value.as_str())
}

/// The dictionary entry row that applying a changed package entry writes.
pub fn dict_data_write(tenant_id: &str, item: &PortableDictData, existing: Option<(i64, i64)>, new_id: i64, now: i64) -> (r: (
    DictDataRecord,
    bool,
))
    ensures
        r.1 == existing is Some,
        r.0.id == written_id(existing, new_id),
        r.0.tenant_id@ == tenant_id@,
        r.0.type_code == item.type_code,
        r.0.label == item.label,
        r.0.value == item.value,
        r.0.sort == item.sort,
        r.0.status == item.status,
        r.0.css_class == item.css_class,
        r.0.remark == item.remark,
        r.0.del_flag@ == DEL_FLAG_NORMAL@,
        r.0.created_at == written_created_at(existing, now),
        r.0.updated_at == now,
{
    let row = DictDataRecord {
        id: match existing {
            Some(e) => e.0,
            None => new_id,
        },
        tenant_id: owned(tenant_id),
        type_code: item.type_code.clone(),
        label: item.label.clone(),
        value: item.value.clone(),
        sort: item.sort,
        status: item.status.clone(),
        css_class: clone_opt(&item.css_class),
        remark: clone_opt(&item.remark),
        del_flag: owned(DEL_FLAG_NORMAL),
        created_at: match existing {
            Some(e) => e.1,
            None => now,
        },
        updated_at: now,
    };
    (row, existing.is_some())
}

/// The parameter row that applying a changed package parameter writes, marked portable. A
/// sensitive parameter (`sensitive`, as the package rules classify its key) is never applied.
pub fn config_write(
    tenant_id: &str,
    item: &PortableConfig,
    sensitive: bool,
    existing: Option<(i64, i64)>,
    new_id: i64,
    now: i64,
) -> (r: AppResult<(StoredConfig, bool)>)
    ensures
        sensitive <==> r is Err,
        r is Err ==> r->Err_0 is Validation,
        r matches Ok(w) ==> {
            &&& w.1 == existing is Some
            &&& w.0.id == written_id(existing, new_id)
            &&& w.0.tenant_id@ == tenant_id@
            &&& w.0.name == item.name
            &&& w.0.key == item.key
            &&& w.0.value == item.value
            &&& w.0.portable
            &&& w.0.remark == item.remark
            &&& w.0.del_flag@ == DEL_FLAG_NORMAL@
            &&& w.0.created_at == written_created_at(existing, now)
            &&& w.0.updated_at == now
        },
{
    if sensitive {
        return Err(AppError::Validation(owned("敏感参数不能应用")));
    }
    let row = StoredConfig {
        id: match existing {
            Some(e) => e.0,
            None => new_id,
        },
        tenant_id: owned(tenant_id),
        name: item.name.clone(),
        key: item.key.clone(),
        value: item.value.clone(),
        portable: true,
        remark: clone_opt(&item.remark),
        del_flag: owned(DEL_FLAG_NORMAL),
        created_at: match existing {
            Some(e) => e.1,
            None => now,
        },
        updated_at: now,
    };
    Ok((row, existing.is_some()))
}

} // verus!

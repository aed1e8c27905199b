//! Dictionary data: cache keys and the listing view.
use vstd::prelude::*;

use crate::text::{owned, push_signed_decimal, push_str, signed_decimal};

use crate::text::id_text;
verus! {

/// How long cached dictionary data lives, in seconds.
pub const DICT_CACHE_TTL_SECS: u64 = 3600;

pub open spec fn spec_dict_cache_key(tenant_id: Seq<char>, type_code: Seq<char>) -> Seq<char> {
    "sys_dict:data:"@ + tenant_id + ":"@ + type_code
}

/// Cache key of one dictionary type's data in a tenant: `sys_dict:data:{tenant}:{type}`.
pub fn dict_cache_key(tenant_id: &str, type_code: &str) -> (r: String)
    ensures
        r@ == spec_dict_cache_key(tenant_id@, type_code@),
{
    let mut r = owned("sys_dict:data:");
    push_str(&mut r, tenant_id);
    push_str(&mut r, ":");
    push_str(&mut r, type_code);
    r
}

/// A dictionary entry as listed.
pub struct DictDataVo {
    pub id: String,
    pub type_code: String,
    pub label: String,
    pub value: String,
    pub sort: i32,
    pub status: String,
    pub css_class: Option<String>,
}

/// A stored dictionary entry. Times are Unix milliseconds.
pub struct DictDataRecord {
    pub id: i64,
    pub tenant_id: String,
    pub type_code: String,
    pub label: String,
    pub value: String,
    pub sort: i32,
    pub status: String,
    pub css_class: Option<String>,
    pub remark: Option<String>,
    pub del_flag: String,
    pub created_at: i64,
    pub updated_at: i64,
}

/// The listing view of a dictionary entry, with its id in decimal.
pub fn dict_data_vo(d: DictDataRecord) -> (r: DictDataVo)
    ensures
        r.id@ == signed_decimal(d.id as int),
        r.type_code == d.type_code,
        r.label == d.label,
        r.value == d.value,
        r.sort == d.sort,
        r.status == d.status,
        r.css_class == d.css_class,
{
    let mut id = String::new();
    push_signed_decimal(&mut id, d.id);
    assert(id@ =~= signed_decimal(d.id as int));
    DictDataVo {
        id,
        type_code: d.type_code,
        label: d.label,
        value: d.value,
        sort: d.sort,
        status: d.status,
        css_class: d.css_class,
    }
}


/// A stored dictionary type. Times are Unix milliseconds.
pub struct StoredDictType {
    pub id: i64,
    pub tenant_id: String,
    pub name: String,
    pub code: String,
    pub status: String,
    pub remark: Option<String>,
    pub del_flag: String,
    pub created_at: i64,
    pub updated_at: i64,
}

/// A dictionary type as listed, its id in decimal.
pub struct DictTypeVo {
    pub id: String,
    pub name: String,
    pub code: String,
    pub status: String,
    pub remark: Option<String>,
    pub created_at: i64,
}

/// The listing view of a dictionary type.
pub fn dict_type_vo(t: StoredDictType) -> (r: DictTypeVo)
    ensures
        r.id@ == signed_decimal(t.id as int),
        r.name == t.name,
        r.code == t.code,
        r.status == t.status,
        r.remark == t.remark,
        r.created_at == t.created_at,
{
    DictTypeVo { id: id_text(t.id), name: t.name, code: t.code, status: t.status, remark: t.remark, created_at: t.created_at }
}

} // verus!

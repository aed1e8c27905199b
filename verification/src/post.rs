//! Posts (job titles): the stored record, the listing view, and the rules of creating one.
use vstd::prelude::*;

use crate::error::{AppError, AppResult};
use crate::text::{owned, push_signed_decimal, signed_decimal};

verus! {

/// Status of a new post.
pub const POST_STATUS_NEW: &'static str = "1";
pub const POST_DEL_FLAG_NORMAL: &'static str = "0";

/// A stored post. Times are Unix milliseconds.
pub struct PostRecord {
    pub id: i64,
    pub tenant_id: String,
    pub name: String,
    pub code: String,
    pub sort: i32,
    pub status: String,
    pub remark: Option<String>,
    pub del_flag: String,
    pub created_at: i64,
    pub updated_at: i64,
}

/// A post as listed, with its id in decimal (Snowflake ids exceed what JavaScript numbers hold).
pub struct PostVo {
    pub id: String,
    pub name: String,
    pub code: String,
    pub sort: i32,
    pub status: String,
    pub remark: Option<String>,
    pub created_at: i64,
}

/// The listing view of a post.
pub fn post_vo(p: PostRecord) -> (r: PostVo)
    ensures
        r.id@ == signed_decimal(p.id as int),
        r.name == p.name,
        r.code == p.code,
        r.sort == p.sort,
        r.status == p.status,
        r.remark == p.remark,
        r.created_at == p.created_at,
{
    let mut id = String::new();
    push_signed_decimal(&mut id, p.id);
    PostVo { id, name: p.name, code: p.code, sort: p.sort, status: p.status, remark: p.remark, created_at: p.created_at }
}

/// A new post of the tenant: status `1`, live, without remark, created and updated at `now`.
pub fn new_post_record(id: i64, tenant_id: &str, name: &str, code: &str, sort: i32, now: i64) -> (r: PostRecord)
    ensures
        r.id == id,
        r.tenant_id@ == tenant_id@,
        r.name@ == name@,
        r.code@ == code@,
        r.sort == sort,
        r.status@ == POST_STATUS_NEW@,
        r.remark is None,
        r.del_flag@ == POST_DEL_FLAG_NORMAL@,
        r.created_at == now && r.updated_at == now,
{
    PostRecord {
        id,
        tenant_id: owned(tenant_id),
        name: owned(name),
        code: owned(code),
        sort,
        status: owned(POST_STATUS_NEW),
        remark: None,
        del_flag: owned(POST_DEL_FLAG_NORMAL),
        created_at: now,
        updated_at: now,
    }
}

/// A post code is unique among the tenant's live posts.
pub fn check_post_code_free(code_taken: bool) -> (r: AppResult<()>)
    ensures
        r is Ok <==> !code_taken,
        r is Err ==> r->Err_0 is Conflict,
{
    if code_taken {
        return Err(AppError::Conflict(owned("岗位编码已存在")));
    }
    Ok(())
}

/// A post that is changed or deleted must exist among the tenant's live posts.
pub fn require_post(found: Option<PostRecord>) -> (r: AppResult<PostRecord>)
    ensures
        match found {
            Some(p) => r == Ok::<PostRecord, AppError>(p),
            None => r is Err && r->Err_0 is NotFound,
        },
{
    match found {
        Some(p) => Ok(p),
        None => Err(AppError::NotFound(owned("岗位不存在"))),
    }
}

/// A post after an update: new name, sort and status, updated at `now`; the rest is kept.
pub fn updated_post(p: PostRecord, name: &str, sort: i32, status: String, now: i64) -> (r: PostRecord)
    ensures
        r.name@ == name@,
        r == (PostRecord { name: r.name, sort, status, updated_at: now, ..p }),
{
    PostRecord { name: owned(name), sort, status, updated_at: now, ..p }
}

} // verus!

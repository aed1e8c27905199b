//! Notices: the stored record, the view, and how one is created and changed.
use vstd::prelude::*;

use crate::error::{AppError, AppResult};
use crate::text::{owned, push_signed_decimal, signed_decimal};

verus! {

pub const NOTICE_STATUS_PUBLISHED: &'static str = "0";
pub const NOTICE_DEL_FLAG_NORMAL: &'static str = "0";

/// A stored notice. Times are Unix milliseconds.
pub struct NoticeRecord {
    pub id: i64,
    pub tenant_id: String,
    pub title: String,
    pub content: String,
    pub notice_type: Option<String>,
    pub status: String,
    pub created_by: Option<i64>,
    pub del_flag: String,
    pub created_at: i64,
    pub updated_at: i64,
}

/// A notice as shown: ids in decimal, the content as Markdown.
pub struct NoticeVo {
    pub id: String,
    pub title: String,
    pub content_markdown: String,
    pub notice_type: Option<String>,
    pub status: String,
    pub created_by: Option<String>,
    pub created_at: i64,
}

pub open spec fn opt_id_text(o: Option<String>) -> Option<Seq<char>> {
    match o {
        Some(s) => Some(s@),
        None => None,
    }
}

/// The view of a notice.
pub fn notice_vo(n: NoticeRecord) -> (r: NoticeVo)
    ensures
        r.id@ == signed_decimal(n.id as int),
        r.title == n.title,
        r.content_markdown == n.content,
        r.notice_type == n.notice_type,
        r.status == n.status,
        opt_id_text(r.created_by) == match n.created_by {
            Some(u) => Some(signed_decimal(u as int)),
            None => None,
        },
        r.created_at == n.created_at,
{
    let mut id = String::new();
    push_signed_decimal(&mut id, n.id);
    let created_by = match n.created_by {
        Some(u) => {
            let mut t = String::new();
            push_signed_decimal(&mut t, u);
            Some(t)
        },
        None => None,
    };
    NoticeVo {
        id,
        title: n.title,
        content_markdown: n.content,
        notice_type: n.notice_type,
        status: n.status,
        created_by,
        created_at: n.created_at,
    }
}

/// A new notice by `user_id`: published, live, created and updated at `now`.
pub fn new_notice_record(
    id: i64,
    tenant_id: &str,
    title: &str,
    content_markdown: &str,
    notice_type: Option<&str>,
    user_id: i64,
    now: i64,
) -> (r: NoticeRecord)
    ensures
        r.id == id,
        r.tenant_id@ == tenant_id@,
        r.title@ == title@,
        r.content@ == content_markdown@,
        opt_id_text(r.notice_type) == match notice_type {
            Some(t) => Some(t@),
            None => None,
        },
        r.status@ == NOTICE_STATUS_PUBLISHED@,
        r.created_by == Some(user_id),
        r.del_flag@ == NOTICE_DEL_FLAG_NORMAL@,
        r.created_at == now && r.updated_at == now,
{
    NoticeRecord {
        id,
        tenant_id: owned(tenant_id),
        title: owned(title),
        content: owned(content_markdown),
        notice_type: match notice_type {
            Some(t) => Some(owned(t)),
            None => None,
        },
        status: owned(NOTICE_STATUS_PUBLISHED),
        created_by: Some(user_id),
        del_flag: owned(NOTICE_DEL_FLAG_NORMAL),
        created_at: now,
        updated_at: now,
    }
}

/// A notice that is changed or deleted must exist in the tenant.
pub fn require_notice(found: Option<NoticeRecord>) -> (r: AppResult<NoticeRecord>)
    ensures
        match found {
            Some(n) => r == Ok::<NoticeRecord, AppError>(n),
            None => r is Err && r->Err_0 is NotFound,
        },
{
    match found {
        Some(n) => Ok(n),
        None => Err(AppError::NotFound(owned("通知公告不存在"))),
    }
}

/// A notice after an update: new title, content, type and status, updated at `now`.
pub fn updated_notice(
    n: NoticeRecord,
    title: &str,
    content_markdown: &str,
    notice_type: Option<&str>,
    status: String,
    now: i64,
) -> (r: NoticeRecord)
    ensures
        r.title@ == title@,
        r.content@ == content_markdown@,
        opt_id_text(r.notice_type) == match notice_type {
            Some(t) => Some(t@),
            None => None,
        },
        r == (NoticeRecord { title: r.title, content: r.content, notice_type: r.notice_type, status, updated_at: now, ..n }),
{
    NoticeRecord {
        title: owned(title),
        content: owned(content_markdown),
        notice_type: match notice_type {
            Some(t) => Some(owned(t)),
            None => None,
        },
        status,
        updated_at: now,
        ..n
    }
}

} // verus!

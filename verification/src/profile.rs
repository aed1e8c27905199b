//! The personal profile: its view, the preferred locale, password changes, and the avatar
//! file a profile refers to.
use vstd::prelude::*;

use crate::error::{AppError, AppResult};
use crate::text::{owned, str_eq, trim, trimmed};
use crate::upload::{AVATAR_BUCKET, DEL_FLAG_NORMAL, SysFile, UPLOAD_STATUS_CLEANUP, UPLOAD_STATUS_READY};

verus! {

/// The signed-in user's profile.
pub struct UserProfileResponse {
    pub user_id: String,
    pub username: String,
    pub nickname: String,
    pub email: String,
    pub phone: String,
    pub avatar: Option<String>,
    pub preferred_locale: Option<String>,
    pub dept_id: Option<String>,
    pub dept_name: Option<String>,
    pub status: String,
    pub remark: Option<String>,
    pub login_ip: Option<String>,
    pub login_date: Option<String>,
    pub created_at: String,
    pub roles: Vec<String>,
    pub permissions: Vec<String>,
}

/// The stored locale for a request: blank means none; `zh-CN` and `en-US` are kept (after
/// trimming); anything else is refused.
pub open spec fn spec_preferred_locale(locale: Option<Seq<char>>) -> Option<Option<Seq<char>>> {
    match locale {
        None => Some(None),
        Some(l) => {
            let t = trim(l);
            if t.len() == 0 {
                Some(None)
            } else if t == "zh-CN"@ || t == "en-US"@ {
                Some(Some(t))
            } else {
                None
            }
        },
    }
}

pub open spec fn opt_string_view(o: Option<String>) -> Option<Seq<char>> {
    match o {
        Some(s) => Some(s@),
        None => None,
    }
}

pub fn normalize_preferred_locale(locale: Option<String>) -> (r: AppResult<Option<String>>)
    ensures
        match spec_preferred_locale(opt_string_view(locale)) {
            None => r is Err && r->Err_0 is Validation,
            Some(out) => r is Ok && opt_string_view(r->Ok_0) == out,
        },
{
    match locale {
        None => Ok(None),
        Some(l) => {
            let t = trimmed(l.as_str());
            proof {
                reveal_strlit("");
                if t@.len() == 0 {
                    assert(t@ =~= ""@);
                }
            }
            if str_eq(t.as_str(), "") {
                Ok(None)
            } else if str_eq(t.as_str(), "zh-CN") {
                Ok(Some(owned("zh-CN")))
            } else if str_eq(t.as_str(), "en-US") {
                Ok(Some(owned("en-US")))
            } else {
                Err(AppError::Validation(owned("preferred_locale 只能是 zh-CN、en-US 或空值")))
            }
        },
    }
}

/// A password change needs the right old password and a different new one.
pub fn check_password_change(old_password_matches: bool, old_password: &str, new_password: &str) -> (r: AppResult<()>)
    ensures
        r is Ok <==> old_password_matches && old_password@ != new_password@,
        r is Err ==> r->Err_0 is Validation,
{
    if !old_password_matches {
        return Err(AppError::Validation(owned("旧密码不正确")));
    }
    if str_eq(old_password, new_password) {
        return Err(AppError::Validation(owned("新密码不能与旧密码相同")));
    }
    Ok(())
}


/// How long an avatar file nobody refers to any more is kept before it is deleted.
pub const AVATAR_CLEANUP_GRACE_MILLIS: i64 = 300_000;

pub open spec fn spec_avatar_lock_order(new_file_id: i64, old_file_id: Option<i64>) -> Seq<i64> {
    match old_file_id {
        Some(o) => if o == new_file_id {
            seq![new_file_id]
        } else if o < new_file_id {
            seq![o, new_file_id]
        } else {
            seq![new_file_id, o]
        },
        None => seq![new_file_id],
    }
}

/// Two users swapping avatar files lock the two files in the same order, so their changes
/// cannot wait on each other.
pub proof fn law_avatar_swap_locks_in_same_order(a: i64, b: i64)
    ensures
        spec_avatar_lock_order(a, Some(b)) == spec_avatar_lock_order(b, Some(a)),
        forall|i: int, j: int| 0 <= i < j < spec_avatar_lock_order(a, Some(b)).len() ==> spec_avatar_lock_order(a, Some(b))[i]
            < spec_avatar_lock_order(a, Some(b))[j],
{
}

/// The avatar files an avatar change locks, in increasing id order (the order every change
/// locks them in): the new file and, when it differs, the old one.
pub fn avatar_lock_order(new_file_id: i64, old_file_id: Option<i64>) -> (r: Vec<i64>)
    ensures
        r@ == spec_avatar_lock_order(new_file_id, old_file_id),
{
    let mut r: Vec<i64> = Vec::new();
    match old_file_id {
        Some(o) => {
            if o == new_file_id {
                r.push(new_file_id);
            } else if o < new_file_id {
                r.push(o);
                r.push(new_file_id);
            } else {
                r.push(new_file_id);
                r.push(o);
            }
        },
        None => {
            r.push(new_file_id);
        },
    }
    r
}

/// The old avatar file a change leaves behind, if it differs from the new one.
pub fn superseded_avatar(new_file_id: i64, old_file_id: Option<i64>) -> (r: Option<i64>)
    ensures
        r == match old_file_id {
            Some(o) => if o != new_file_id {
                Some(o)
            } else {
                None
            },
            None => None,
        },
{
    match old_file_id {
        Some(o) => if o != new_file_id {
            Some(o)
        } else {
            None
        },
        None => None,
    }
}

/// What an avatar change does with the new file.
#[derive(Debug, Clone, Copy, PartialEq, Eq, Structural)]
pub enum AvatarFileAction {
    /// The file is ready: refer to it.
    Use,
    /// The file waits for cleanup: take it back before referring to it.
    Restore,
}

/// The new avatar must be a file of the avatar bucket that finished uploading and is live, or
/// one waiting for cleanup, which is restored.
pub fn check_avatar_file(file: &Option<SysFile>) -> (r: AppResult<AvatarFileAction>)
    ensures
        match *file {
            None => r is Err && r->Err_0 is NotFound,
            Some(f) => if f.bucket@ != AVATAR_BUCKET@ {
                r is Err && r->Err_0 is Validation
            } else if f.upload_status@ == UPLOAD_STATUS_CLEANUP@ {
                r == Ok::<AvatarFileAction, AppError>(AvatarFileAction::Restore)
            } else if f.upload_status@ != UPLOAD_STATUS_READY@ || f.del_flag@ != DEL_FLAG_NORMAL@ {
                r is Err && r->Err_0 is Validation
            } else {
                r == Ok::<AvatarFileAction, AppError>(AvatarFileAction::Use)
            },
        },
{
    match file {
        None => Err(AppError::NotFound(owned("头像文件不存在或已被回收"))),
        Some(f) => {
            if !str_eq(f.bucket.as_str(), AVATAR_BUCKET) {
                return Err(AppError::Validation(owned("只能关联头像专用文件")));
            }
            if str_eq(f.upload_status.as_str(), UPLOAD_STATUS_CLEANUP) {
                return Ok(AvatarFileAction::Restore);
            }
            if !str_eq(f.upload_status.as_str(), UPLOAD_STATUS_READY) || !str_eq(f.del_flag.as_str(), DEL_FLAG_NORMAL) {
                return Err(AppError::Validation(owned("头像文件尚未完成上传")));
            }
            Ok(AvatarFileAction::Use)
        },
    }
}

/// An avatar file is marked for cleanup only when no user refers to it any more; it is then
/// deleted no earlier than five minutes after `now`. The result is that instant, or `None`
/// when the file stays.
pub fn avatar_orphan_cleanup_after(references: u64, now: i64) -> (r: Option<i64>)
    requires
        now + AVATAR_CLEANUP_GRACE_MILLIS <= i64::MAX,
    ensures
        r == if references == 0 {
            Some((now + AVATAR_CLEANUP_GRACE_MILLIS) as i64)
        } else {
            None
        },
{
    if references == 0 {
        Some(now + AVATAR_CLEANUP_GRACE_MILLIS)
    } else {
        None
    }
}

/// Only files of the avatar bucket are cleaned up as avatars.
pub fn check_avatar_bucket_for_cleanup(bucket: &str) -> (r: AppResult<()>)
    ensures
        r is Ok <==> bucket@ == AVATAR_BUCKET@,
        r is Err ==> r->Err_0 is Validation,
{
    if str_eq(bucket, AVATAR_BUCKET) {
        Ok(())
    } else {
        Err(AppError::Validation(owned("只能清理头像专用文件")))
    }
}

} // verus!

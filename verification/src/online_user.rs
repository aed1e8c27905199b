//! Online-user sessions: their key space, expiry, listing, paging and the in-process store.
use vstd::prelude::*;

use crate::error::{AppError, AppResult};
use crate::strset::{sort_dedup, sorted_strict, views, StrMap};
use crate::text::{contains_seq, contains_str, owned, push_signed_decimal, push_str, signed_decimal, str_eq};
use crate::transfer::portable::lemma_filter_step;

verus! {

// ---------------------------------------------------------------------------
// Key space
// ---------------------------------------------------------------------------
pub open spec fn spec_session_key(tenant_id: Seq<char>, sid: Seq<char>) -> Seq<char> {
    "ryframe:v0.5:online-user:"@ + tenant_id + ":"@ + sid
}

/// Key of one session's metadata: `ryframe:v0.5:online-user:{tenant}:{sid}`.
pub fn session_key(tenant_id: &str, sid: &str) -> (r: String)
    ensures
        r@ == spec_session_key(tenant_id@, sid@),
{
    let mut r = owned("ryframe:v0.5:online-user:");
    push_str(&mut r, tenant_id);
    push_str(&mut r, ":");
    push_str(&mut r, sid);
    r
}

pub open spec fn spec_tenant_pattern(tenant_id: Seq<char>) -> Seq<char> {
    "ryframe:v0.5:online-user:"@ + tenant_id + ":*"@
}

/// Scan pattern for every session of a tenant.
pub fn tenant_pattern(tenant_id: &str) -> (r: String)
    ensures
        r@ == spec_tenant_pattern(tenant_id@),
{
    let mut r = owned("ryframe:v0.5:online-user:");
    push_str(&mut r, tenant_id);
    push_str(&mut r, ":*");
    r
}

pub open spec fn spec_tenant_index_key(tenant_id: Seq<char>) -> Seq<char> {
    "ryframe:v0.9:online-user-index:tenant:"@ + tenant_id
}

/// Key of a tenant's session index.
pub fn tenant_index_key(tenant_id: &str) -> (r: String)
    ensures
        r@ == spec_tenant_index_key(tenant_id@),
{
    let mut r = owned("ryframe:v0.9:online-user-index:tenant:");
    push_str(&mut r, tenant_id);
    r
}

pub open spec fn spec_tenant_user_index_key(tenant_id: Seq<char>, user_id: i64) -> Seq<char> {
    "ryframe:v0.9:online-user-index:tenant-user:"@ + tenant_id + ":"@ + signed_decimal(user_id as int)
}

/// Key of one user's session index within a tenant.
pub fn tenant_user_index_key(tenant_id: &str, user_id: i64) -> (r: String)
    ensures
        r@ == spec_tenant_user_index_key(tenant_id@, user_id),
{
    let mut r = owned("ryframe:v0.9:online-user-index:tenant-user:");
    push_str(&mut r, tenant_id);
    push_str(&mut r, ":");
    push_signed_decimal(&mut r, user_id);
    r
}

// ---------------------------------------------------------------------------
// Expiry
// ---------------------------------------------------------------------------
/// A TTL in seconds as Redis takes it: capped at `i64::MAX`.
pub fn redis_ttl_secs(ttl_secs: u64) -> (r: i64)
    ensures
        r == if ttl_secs <= i64::MAX as u64 {
            ttl_secs as int
        } else {
            i64::MAX as int
        },
{
    if ttl_secs <= 9223372036854775807u64 {
        ttl_secs as i64
    } else {
        9223372036854775807i64
    }
}

/// Seconds left until `absolute_exp` at time `now` (both Unix seconds), when any are left.
pub open spec fn spec_remaining_ttl(absolute_exp: i64, now: i64) -> Option<u64> {
    if absolute_exp - now > 0 {
        Some((absolute_exp - now) as u64)
    } else {
        None
    }
}

pub fn remaining_ttl_at(absolute_exp: i64, now: i64) -> (r: Option<u64>)
    ensures
        r == spec_remaining_ttl(absolute_exp, now),
{
    let remaining: i128 = absolute_exp as i128 - now as i128;
    if remaining > 0 {
        Some(remaining as u64)
    } else {
        None
    }
}

/// The current Unix time in seconds.
///
/// Wraps `chrono::Utc::now().timestamp()`; nothing is stated of the value, which is the clock's.
#[verifier::external_body]
fn current_unix_seconds() -> i64 {
    chrono::Utc::now().timestamp()
}

/// Seconds left until `absolute_exp` by the system clock, when any are left.
pub fn remaining_ttl(absolute_exp: i64) -> (r: Option<u64>)
    ensures
        exists|now: i64| r == spec_remaining_ttl(absolute_exp, now),
{
    let now = current_unix_seconds();
    remaining_ttl_at(absolute_exp, now)
}

// ---------------------------------------------------------------------------
// Sessions and their views
// ---------------------------------------------------------------------------
/// An online user as listed to administrators.
pub struct OnlineUserVo {
    pub sid: String,
    pub username: String,
    pub dept_name: Option<String>,
    pub ipaddr: String,
    pub login_location: Option<String>,
    pub browser: Option<String>,
    pub os: Option<String>,
    pub login_time: String,
    pub last_access_time: String,
}

/// Metadata of one signed-in device. Times are Unix milliseconds; `absolute_exp` is the Unix
/// second at which the refresh-token family ends.
pub struct UserSession {
    pub sid: String,
    pub tenant_id: String,
    pub user_id: i64,
    pub username: String,
    pub dept_name: Option<String>,
    pub ipaddr: String,
    pub login_location: Option<String>,
    pub browser: Option<String>,
    pub os: Option<String>,
    pub login_time: i64,
    pub last_access_time: i64,
    pub absolute_exp: i64,
}

/// Milliseconds that `chrono` can represent as a date-time: ±8e15 ms, a margin inside its
/// range of about ±262,000 years (±8.2e15 ms).
pub open spec fn representable_millis(ms: i64) -> bool {
    -8_000_000_000_000_000 <= ms <= 8_000_000_000_000_000
}

impl UserSession {
    pub open spec fn wf(&self) -> bool {
        representable_millis(self.login_time) && representable_millis(self.last_access_time)
    }

    /// Whether both times can be rendered (see `session_to_vo`).
    pub fn is_representable(&self) -> (r: bool)
        ensures
            r == self.wf(),
    {
        -8_000_000_000_000_000 <= self.login_time && self.login_time <= 8_000_000_000_000_000
            && -8_000_000_000_000_000 <= self.last_access_time && self.last_access_time <= 8_000_000_000_000_000
    }
}

/// Most recently active first.
pub open spec fn by_recent_access(s: Seq<UserSession>) -> bool {
    forall|i: int, j: int| 0 <= i < j < s.len() ==> s[i].last_access_time >= s[j].last_access_time
}

/// The sessions last accessed at `t`.
pub open spec fn accessed_at(t: i64) -> spec_fn(UserSession) -> bool {
    |s: UserSession| s.last_access_time == t
}

/// Inserting a session in front of every later-accessed one keeps, for each access time, the
/// sessions of that time in their order, the new one last.
proof fn lemma_insert_keeps_time_order(b: Seq<UserSession>, p: int, x: UserSession, t: i64)
    requires
        0 <= p <= b.len(),
        forall|k: int| p <= k < b.len() ==> (#[trigger] b[k]).last_access_time < x.last_access_time,
    ensures
        b.insert(p, x).filter(accessed_at(t)) == if x.last_access_time == t {
            b.filter(accessed_at(t)).push(x)
        } else {
            b.filter(accessed_at(t))
        },
{
    let f = accessed_at(t);
    let head = b.take(p);
    let tail = b.skip(p);
    assert(b.insert(p, x) =~= head + seq![x] + tail);
    assert(b =~= head + tail);
    Seq::filter_distributes_over_add(head + seq![x], tail, f);
    Seq::filter_distributes_over_add(head, seq![x], f);
    Seq::filter_distributes_over_add(head, tail, f);
    Seq::<UserSession>::empty().lemma_filter_push(x, f);
    assert(Seq::<UserSession>::empty().push(x) =~= seq![x]);
    assert(Seq::<UserSession>::empty().filter(f) =~= Seq::<UserSession>::empty()) by {
        reveal(Seq::filter);
    }
    if x.last_access_time == t {
        assert(tail.all(|y: UserSession| !f(y))) by {
            assert forall|k: int| 0 <= k < tail.len() implies !f(#[trigger] tail[k]) by {
                assert(tail[k] == b[p + k]);
            }
        }
        tail.lemma_all_neg_filter_empty(f);
        assert(tail.filter(f) =~= Seq::<UserSession>::empty());
        assert(head.filter(f) + seq![x] + tail.filter(f) =~= (head.filter(f) + tail.filter(f)).push(x));
    } else {
        assert(head.filter(f) + Seq::<UserSession>::empty() + tail.filter(f) =~= head.filter(f) + tail.filter(f));
    }
}

/// Orders sessions by last access, most recent first; sessions with equal times keep their
/// order.
pub fn sort_by_recent_access(sessions: Vec<UserSession>) -> (r: Vec<UserSession>)
    ensures
        by_recent_access(r@),
        r@.to_multiset() == sessions@.to_multiset(),
        forall|t: i64| #[trigger] r@.filter(accessed_at(t)) == sessions@.filter(accessed_at(t)),
{
    let ghost input = sessions@;
    let mut out: Vec<UserSession> = Vec::new();
    proof {
        assert(input.take(0) =~= Seq::<UserSession>::empty());
        assert(out@ =~= Seq::<UserSession>::empty());
    }
    for x in it: sessions.into_iter()
        invariant
            it.seq() == input,
            by_recent_access(out@),
            out@.to_multiset() == input.take(it.index() as int).to_multiset(),
            forall|t: i64| #[trigger] out@.filter(accessed_at(t)) == input.take(it.index() as int).filter(accessed_at(t)),
    {
        let mut p: usize = 0;
        while p < out.len() && out[p].last_access_time >= x.last_access_time
            invariant
                p <= out@.len(),
                forall|k: int| 0 <= k < p ==> out@[k].last_access_time >= x.last_access_time,
            decreases out.len() - p,
        {
            p = p + 1;
        }
        let ghost before = out@;
        let ghost xv = x;
        proof {
            assert(input.take(it.index() + 1) =~= input.take(it.index() as int).push(input[it.index() as int]));
            vstd::seq_lib::to_multiset_build(input.take(it.index() as int), input[it.index() as int]);
        }
        out.insert(p, x);
        proof {
            assert(out@ =~= before.insert(p as int, xv));
            assert forall|k: int| p <= k < before.len() implies (#[trigger] before[k]).last_access_time < xv.last_access_time by {
                assert(before[p as int].last_access_time < xv.last_access_time);
                if k > p {
                    assert(before[p as int].last_access_time >= before[k].last_access_time);
                }
            }
            assert forall|t: i64| #[trigger] out@.filter(accessed_at(t)) == input.take(it.index() + 1).filter(accessed_at(t)) by {
                lemma_insert_keeps_time_order(before, p as int, xv, t);
                input.take(it.index() as int).lemma_filter_push(xv, accessed_at(t));
            }
            vstd::seq_lib::to_multiset_insert(before, p as int, xv);
            assert(xv == input[it.index() as int]);
            assert forall|i: int, j: int| 0 <= i < j < out@.len() implies out@[i].last_access_time >= out@[j].last_access_time by {
                if j < p {
                    assert(out@[i] == before[i] && out@[j] == before[j]);
                } else if j == p {
                    assert(out@[i] == before[i]);
                } else if i < p {
                    assert(out@[i] == before[i] && out@[j] == before[j - 1]);
                    if p < before.len() {
                        assert(before[p as int].last_access_time < xv.last_access_time);
                    }
                } else if i == p {
                    assert(out@[j] == before[j - 1]);
                    assert(before[p as int].last_access_time < xv.last_access_time);
                } else {
                    assert(out@[i] == before[i - 1] && out@[j] == before[j - 1]);
                }
            }
        }
    }
    proof {
        assert(input.take(input.len() as int) =~= input);
    }
    out
}

/// RFC 3339 rendering (UTC, `+00:00`) of a Unix-millisecond instant, as `chrono` writes it.
pub uninterp spec fn rfc3339_of_millis(ms: i64) -> Seq<char>;

/// Wraps `chrono::DateTime::<Utc>::from_timestamp_millis` followed by `to_rfc3339`: the
/// rendering depends on the instant alone. Inside the representable range the conversion
/// always succeeds.
#[verifier::external_body]
fn format_rfc3339_millis(ms: i64) -> (r: String)
    requires
        representable_millis(ms),
    ensures
        r@ == rfc3339_of_millis(ms),
{
    match chrono::DateTime::from_timestamp_millis(ms) {
        Some(t) => t.to_rfc3339(),
        None => String::new(),
    }
}

fn clone_opt(s: &Option<String>) -> (r: Option<String>)
    ensures
        r == *s,
{
    match s {
        Some(v) => Some(v.clone()),
        None => None,
    }
}

/// The listing view of a session, with both times rendered in RFC 3339.
pub fn session_to_vo(session: &UserSession) -> (r: OnlineUserVo)
    requires
        session.wf(),
    ensures
        r.sid == session.sid,
        r.username == session.username,
        r.dept_name == session.dept_name,
        r.ipaddr == session.ipaddr,
        r.login_location == session.login_location,
        r.browser == session.browser,
        r.os == session.os,
        r.login_time@ == rfc3339_of_millis(session.login_time),
        r.last_access_time@ == rfc3339_of_millis(session.last_access_time),
{
    OnlineUserVo {
        sid: session.sid.clone(),
        username: session.username.clone(),
        dept_name: clone_opt(&session.dept_name),
        ipaddr: session.ipaddr.clone(),
        login_location: clone_opt(&session.login_location),
        browser: clone_opt(&session.browser),
        os: clone_opt(&session.os),
        login_time: format_rfc3339_millis(session.login_time),
        last_access_time: format_rfc3339_millis(session.last_access_time),
    }
}

pub fn clone_session(s: &UserSession) -> (r: UserSession)
    ensures
        r == *s,
{
    UserSession {
        sid: s.sid.clone(),
        tenant_id: s.tenant_id.clone(),
        user_id: s.user_id,
        username: s.username.clone(),
        dept_name: clone_opt(&s.dept_name),
        ipaddr: s.ipaddr.clone(),
        login_location: clone_opt(&s.login_location),
        browser: clone_opt(&s.browser),
        os: clone_opt(&s.os),
        login_time: s.login_time,
        last_access_time: s.last_access_time,
        absolute_exp: s.absolute_exp,
    }
}

// ---------------------------------------------------------------------------
// Listing
// ---------------------------------------------------------------------------
pub open spec fn opt_contains(value: Seq<char>, filter: Option<Seq<char>>) -> bool {
    match filter {
        None => true,
        Some(f) => contains_seq(value, f),
    }
}

/// A user is listed when its name and address contain the given fragments (absent ones match).
pub open spec fn user_matches(user: OnlineUserVo, username: Option<Seq<char>>, ipaddr: Option<Seq<char>>) -> bool {
    opt_contains(user.username@, username) && opt_contains(user.ipaddr@, ipaddr)
}

pub open spec fn opt_str_view(o: Option<&str>) -> Option<Seq<char>> {
    match o {
        None => None,
        Some(s) => Some(s@),
    }
}

pub open spec fn matching_users(username: Option<Seq<char>>, ipaddr: Option<Seq<char>>) -> spec_fn(OnlineUserVo) -> bool {
    |u: OnlineUserVo| user_matches(u, username, ipaddr)
}

/// Every user kept by the filter has a name containing the name fragment and an address
/// containing the address fragment (when given), and every such user is kept.
pub proof fn law_filtered_users_match_both_fragments(
    users: Seq<OnlineUserVo>,
    username: Option<Seq<char>>,
    ipaddr: Option<Seq<char>>,
)
    ensures
        ({
            let kept = users.filter(matching_users(username, ipaddr));
            &&& forall|i: int|
                0 <= i < kept.len() ==> (username matches Some(f) ==> contains_seq((#[trigger] kept[i]).username@, f))
                    && (ipaddr matches Some(f) ==> contains_seq(kept[i].ipaddr@, f))
            &&& forall|j: int|
                0 <= j < users.len() && (username matches Some(f) ==> contains_seq((#[trigger] users[j]).username@, f))
                    && (ipaddr matches Some(f) ==> contains_seq(users[j].ipaddr@, f)) ==> kept.contains(users[j])
        }),
{
    let pred = matching_users(username, ipaddr);
    broadcast use vstd::seq_lib::group_filter_ensures;
    let kept = users.filter(pred);
    assert forall|i: int| 0 <= i < kept.len() implies (username matches Some(f) ==> contains_seq(
        (#[trigger] kept[i]).username@,
        f,
    )) && (ipaddr matches Some(f) ==> contains_seq(kept[i].ipaddr@, f)) by {
        assert(pred(kept[i]));
    }
    assert forall|j: int|
        0 <= j < users.len() && (username matches Some(f) ==> contains_seq((#[trigger] users[j]).username@, f)) && (
        ipaddr matches Some(f) ==> contains_seq(users[j].ipaddr@, f)) implies kept.contains(users[j]) by {
        assert(pred(users[j]));
    }
}

/// Keeps the users whose name and address contain the given fragments, in order.
pub fn filter_online_users(users: Vec<OnlineUserVo>, username: Option<&str>, ipaddr: Option<&str>) -> (r: Vec<OnlineUserVo>)
    ensures
        r@ == users@.filter(matching_users(opt_str_view(username), opt_str_view(ipaddr))),
        forall|i: int|
            0 <= i < r@.len() ==> (username matches Some(f) ==> contains_seq((#[trigger] r@[i]).username@, f@)) && (
            ipaddr matches Some(f) ==> contains_seq(r@[i].ipaddr@, f@)),
{
    let ghost pred = matching_users(opt_str_view(username), opt_str_view(ipaddr));
    let ghost input = users@;
    let mut out: Vec<OnlineUserVo> = Vec::new();
    for u in it: users.into_iter()
        invariant
            it.seq() == input,
            pred == matching_users(opt_str_view(username), opt_str_view(ipaddr)),
            out@ == input.take(it.index() as int).filter(pred),
    {
        proof {
            lemma_filter_step(input, it.index() as int, pred);
        }
        let name_ok = match username {
            None => true,
            Some(f) => contains_str(u.username.as_str(), f),
        };
        let ip_ok = match ipaddr {
            None => true,
            Some(f) => contains_str(u.ipaddr.as_str(), f),
        };
        if name_ok && ip_ok {
            out.push(u);
        }
    }
    assert(input.take(input.len() as int) =~= input);
    proof {
        law_filtered_users_match_both_fragments(input, opt_str_view(username), opt_str_view(ipaddr));
    }
    out
}

/// The rows a page shows: skip `offset`, then take at most `page_size`.
pub open spec fn page_window<T>(rows: Seq<T>, offset: int, page_size: int) -> Seq<T> {
    let lo = if offset < rows.len() { offset } else { rows.len() as int };
    let hi = if offset + page_size < rows.len() { offset + page_size } else { rows.len() as int };
    rows.subrange(lo, hi)
}

/// One page of filtered users and the number of filtered users.
///
/// Fails with a validation error when the offset or the page size does not fit in `usize`.
pub fn page_online_users(rows: Vec<OnlineUserVo>, offset: u64, page_size: u64) -> (r: AppResult<(Vec<OnlineUserVo>, u64)>)
    ensures
        r is Err <==> offset > usize::MAX || page_size > usize::MAX,
        r is Err ==> r->Err_0 is Validation,
        r matches Ok((page, total)) ==> total == rows@.len() && page@ == page_window(
            rows@,
            offset as int,
            page_size as int,
        ),
{
    let total = rows.len() as u64;
    if offset > usize::MAX as u64 {
        return Err(AppError::Validation(owned("分页偏移量超出当前平台范围")));
    }
    if page_size > usize::MAX as u64 {
        return Err(AppError::Validation(owned("分页大小超出当前平台范围")));
    }
    let off = offset as usize;
    let size = page_size as usize;
    let ghost input = rows@;
    let ghost lo: int = if off < input.len() { off as int } else { input.len() as int };
    let ghost hi: int = if off + size < input.len() { off + size } else { input.len() as int };
    let mut out: Vec<OnlineUserVo> = Vec::new();
    let n: usize = rows.len();
    let mut k: usize = 0;
    for u in it: rows.into_iter()
        invariant
            it.seq() == input,
            input.len() == n,
            k == it.index(),
            lo == (if off < input.len() { off as int } else { input.len() as int }),
            hi == (if off + size < input.len() { off + size } else { input.len() as int }),
            out@ == input.subrange(
                if it.index() < lo { lo } else if it.index() < hi { lo } else { lo },
                if it.index() < lo { lo } else if it.index() < hi { it.index() as int } else { hi },
            ),
    {
        proof {
            if lo <= k < hi {
                assert(input.subrange(lo, k + 1) =~= input.subrange(lo, k as int).push(input[k as int]));
            }
        }
        if k >= off && k - off < size {
            out.push(u);
        }
        k = k + 1;
    }
    assert(total == input.len()) by {
        assert(input.len() <= usize::MAX);
    }
    Ok((out, total))
}

// ---------------------------------------------------------------------------
// Decoded metadata
// ---------------------------------------------------------------------------
/// A fetched session is shown when it belongs to the tenant asked for, was stored under its
/// own key, and has not expired at `now`.
pub open spec fn decoded_session_kept(expected_tenant_id: Seq<char>, key: Seq<char>, s: UserSession, now: i64) -> bool {
    &&& s.tenant_id@ == expected_tenant_id
    &&& key == spec_session_key(expected_tenant_id, s.sid@)
    &&& spec_remaining_ttl(s.absolute_exp, now) is Some
}

/// Which of the fetched sessions, indexed like `keys`, are kept; absent values are skipped.
pub open spec fn kept_sessions(
    expected_tenant_id: Seq<char>,
    keys: Seq<String>,
    values: Seq<Option<UserSession>>,
    now: i64,
) -> Seq<UserSession>
    decreases values.len(),
{
    if values.len() == 0 {
        Seq::empty()
    } else {
        let rest = kept_sessions(expected_tenant_id, keys.drop_last(), values.drop_last(), now);
        match values.last() {
            Some(s) => if decoded_session_kept(expected_tenant_id, keys.last()@, s, now) {
                rest.push(s)
            } else {
                rest
            },
            None => rest,
        }
    }
}

/// Every session shown from fetched metadata belongs to the tenant asked for, was stored
/// under its own key in that tenant, and is still live (absolute expiry after `now`); and it
/// is one of the fetched values. A session of another tenant is never shown.
pub proof fn law_kept_sessions_are_the_tenants_own_live_ones(
    expected_tenant_id: Seq<char>,
    keys: Seq<String>,
    values: Seq<Option<UserSession>>,
    now: i64,
)
    requires
        keys.len() == values.len(),
    ensures
        ({
            let kept = kept_sessions(expected_tenant_id, keys, values, now);
            &&& kept.len() <= values.len()
            &&& forall|i: int|
                0 <= i < kept.len() ==> (#[trigger] kept[i]).tenant_id@ == expected_tenant_id && kept[i].absolute_exp
                    > now && exists|j: int|
                    0 <= j < values.len() && values[j] == Some(kept[i]) && keys[j]@ == spec_session_key(
                        expected_tenant_id,
                        kept[i].sid@,
                    )
        }),
    decreases values.len(),
{
    if values.len() > 0 {
        let k0 = keys.drop_last();
        let v0 = values.drop_last();
        law_kept_sessions_are_the_tenants_own_live_ones(expected_tenant_id, k0, v0, now);
        let rest = kept_sessions(expected_tenant_id, k0, v0, now);
        let kept = kept_sessions(expected_tenant_id, keys, values, now);
        let n = values.len() - 1;
        assert forall|i: int| 0 <= i < kept.len() implies (#[trigger] kept[i]).tenant_id@ == expected_tenant_id
            && kept[i].absolute_exp > now && exists|j: int|
            0 <= j < values.len() && values[j] == Some(kept[i]) && keys[j]@ == spec_session_key(
                expected_tenant_id,
                kept[i].sid@,
            ) by {
            if i < rest.len() {
                assert(kept[i] == rest[i]);
                let j = choose|j: int|
                    0 <= j < v0.len() && v0[j] == Some(rest[i]) && k0[j]@ == spec_session_key(expected_tenant_id, rest[i].sid@);
                assert(values[j] == v0[j] && keys[j] == k0[j]);
            } else {
                assert(values[n] == Some(kept[i]));
            }
        }
    }
}

/// Keeps the fetched sessions that may be shown for `expected_tenant_id`.
///
/// Fails with an internal error when the store answered a different number of values than
/// keys were asked for.
pub fn select_decoded_sessions(
    expected_tenant_id: &str,
    keys: &[String],
    values: Vec<Option<UserSession>>,
    now: i64,
) -> (r: AppResult<Vec<UserSession>>)
    ensures
        r is Err <==> keys@.len() != values@.len(),
        r is Err ==> r->Err_0 is Internal,
        r matches Ok(v) ==> v@ == kept_sessions(expected_tenant_id@, keys@, values@, now),
        r matches Ok(v) ==> forall|i: int|
            0 <= i < v@.len() ==> (#[trigger] v@[i]).tenant_id@ == expected_tenant_id@ && v@[i].absolute_exp > now,
{
    if keys.len() != values.len() {
        return Err(AppError::Internal(owned("查询在线用户失败")));
    }
    let ghost input = values@;
    let mut out: Vec<UserSession> = Vec::new();
    let mut k: usize = 0;
    for value in it: values.into_iter()
        invariant
            it.seq() == input,
            k == it.index(),
            keys@.len() == input.len(),
            out@ == kept_sessions(expected_tenant_id@, keys@.take(it.index() as int), input.take(it.index() as int), now),
    {
        proof {
            assert(input.take(k + 1).drop_last() =~= input.take(k as int));
            assert(keys@.take(k + 1).drop_last() =~= keys@.take(k as int));
        }
        match value {
            Some(s) => {
                let key = &keys[k];
                let expected = session_key(expected_tenant_id, s.sid.as_str());
                if str_eq(s.tenant_id.as_str(), expected_tenant_id) && str_eq(key.as_str(), expected.as_str())
                    && remaining_ttl_at(s.absolute_exp, now).is_some() {
                    out.push(s);
                }
            },
            None => {},
        }
        k = k + 1;
    }
    proof {
        assert(input.take(input.len() as int) =~= input);
        assert(keys@.take(input.len() as int) =~= keys@);
        law_kept_sessions_are_the_tenants_own_live_ones(expected_tenant_id@, keys@, input, now);
    }
    Ok(out)
}

// ---------------------------------------------------------------------------
// In-process session store
// ---------------------------------------------------------------------------
/// Session metadata of a single process, keyed by `session_key`.
pub struct SessionStore {
    pub sessions: StrMap<UserSession>,
}

pub open spec fn unexpired(s: UserSession, now: i64) -> bool {
    spec_remaining_ttl(s.absolute_exp, now) is Some
}

/// The store's contents after `touch`: an expired entry is dropped, a live one gets its access
/// time, a missing one stays missing.
pub open spec fn touched(m: Map<Seq<char>, UserSession>, key: Seq<char>, now: i64, at: i64) -> Map<Seq<char>, UserSession> {
    if m.contains_key(key) {
        if unexpired(m[key], now) {
            m.insert(key, UserSession { last_access_time: at, ..m[key] })
        } else {
            m.remove(key)
        }
    } else {
        m
    }
}

/// The entries that have not expired at `now`.
pub open spec fn live_entries(m: Map<Seq<char>, UserSession>, now: i64) -> Map<Seq<char>, UserSession> {
    Map::new(|k: Seq<char>| m.contains_key(k) && unexpired(m[k], now), |k: Seq<char>| m[k])
}

pub open spec fn listed_for_tenant(tenant_id: Seq<char>, now: i64) -> spec_fn(UserSession) -> bool {
    |s: UserSession| s.tenant_id@ == tenant_id && unexpired(s, now)
}

pub open spec fn listed_for_user(tenant_id: Seq<char>, user_id: i64, now: i64) -> spec_fn(UserSession) -> bool {
    |s: UserSession| s.tenant_id@ == tenant_id && s.user_id == user_id && unexpired(s, now)
}

impl View for SessionStore {
    type V = Map<Seq<char>, UserSession>;

    /// The stored sessions by key.
    open spec fn view(&self) -> Map<Seq<char>, UserSession> {
        Map::new(|k: Seq<char>| self.sessions.get_spec(k) is Some, |k: Seq<char>| self.sessions.get_spec(k).unwrap())
    }
}

impl SessionStore {
    pub open spec fn wf(&self) -> bool {
        self.sessions.wf()
    }

    /// The stored sessions in key order.
    pub open spec fn values(&self) -> Seq<UserSession> {
        self.sessions.entries@.map_values(|e: (String, UserSession)| e.1)
    }

    pub fn new() -> (r: SessionStore)
        ensures
            r.wf(),
            r@ == Map::<Seq<char>, UserSession>::empty(),
    {
        let r = SessionStore { sessions: StrMap::new() };
        assert(r@ =~= Map::<Seq<char>, UserSession>::empty());
        r
    }

    /// Stores `session` under its key, replacing what was there.
    pub fn add(&mut self, session: UserSession)
        requires
            old(self).wf(),
        ensures
            final(self).wf(),
            final(self)@ == old(self)@.insert(spec_session_key(session.tenant_id@, session.sid@), session),
    {
        let key = session_key(session.tenant_id.as_str(), session.sid.as_str());
        let ghost k = key@;
        let ghost s = session;
        self.sessions.upsert(key, session);
        assert(self@ =~= old(self)@.insert(k, s));
    }

    /// Drops the session of `sid` in `tenant_id`.
    pub fn remove(&mut self, tenant_id: &str, sid: &str)
        requires
            old(self).wf(),
        ensures
            final(self).wf(),
            final(self)@ == old(self)@.remove(spec_session_key(tenant_id@, sid@)),
    {
        let key = session_key(tenant_id, sid);
        self.sessions.remove_key(key.as_str());
        assert(self@ =~= old(self)@.remove(key@));
    }

    /// The live sessions of a tenant, in key order.
    pub fn list(&self, tenant_id: &str, now: i64) -> (r: Vec<UserSession>)
        requires
            self.wf(),
        ensures
            r@ == self.values().filter(listed_for_tenant(tenant_id@, now)),
            forall|i: int| 0 <= i < r@.len() ==> (#[trigger] r@[i]).tenant_id@ == tenant_id@ && r@[i].absolute_exp > now,
    {
        let ghost pred = listed_for_tenant(tenant_id@, now);
        let mut out: Vec<UserSession> = Vec::new();
        let mut i: usize = 0;
        while i < self.sessions.entries.len()
            invariant
                i <= self.sessions.entries@.len(),
                pred == listed_for_tenant(tenant_id@, now),
                out@ == self.values().take(i as int).filter(pred),
            decreases self.sessions.entries.len() - i,
        {
            proof {
                lemma_filter_step(self.values(), i as int, pred);
            }
            let s = &self.sessions.entries[i].1;
            if str_eq(s.tenant_id.as_str(), tenant_id) && remaining_ttl_at(s.absolute_exp, now).is_some() {
                out.push(clone_session(s));
            }
            i = i + 1;
        }
        assert(self.values().take(self.values().len() as int) =~= self.values());
        proof {
            law_tenant_listing_is_the_tenants_live_sessions(*self, tenant_id@, now);
        }
        out
    }

    /// The live sessions of one user in a tenant, in key order.
    pub fn list_for_user(&self, tenant_id: &str, user_id: i64, now: i64) -> (r: Vec<UserSession>)
        requires
            self.wf(),
        ensures
            r@ == self.values().filter(listed_for_user(tenant_id@, user_id, now)),
            forall|i: int|
                0 <= i < r@.len() ==> (#[trigger] r@[i]).user_id == user_id && r@[i].tenant_id@ == tenant_id@
                    && r@[i].absolute_exp > now,
    {
        let ghost pred = listed_for_user(tenant_id@, user_id, now);
        let mut out: Vec<UserSession> = Vec::new();
        let mut i: usize = 0;
        while i < self.sessions.entries.len()
            invariant
                i <= self.sessions.entries@.len(),
                pred == listed_for_user(tenant_id@, user_id, now),
                out@ == self.values().take(i as int).filter(pred),
            decreases self.sessions.entries.len() - i,
        {
            proof {
                lemma_filter_step(self.values(), i as int, pred);
            }
            let s = &self.sessions.entries[i].1;
            if str_eq(s.tenant_id.as_str(), tenant_id) && s.user_id == user_id
                && remaining_ttl_at(s.absolute_exp, now).is_some() {
                out.push(clone_session(s));
            }
            i = i + 1;
        }
        assert(self.values().take(self.values().len() as int) =~= self.values());
        proof {
            law_user_listing_is_the_users_live_sessions(*self, tenant_id@, user_id, now);
        }
        out
    }

    /// Marks the session as accessed at `at`; an expired session is dropped instead. Returns
    /// whether a live session was found.
    pub fn touch(&mut self, tenant_id: &str, sid: &str, now: i64, at: i64) -> (r: bool)
        requires
            old(self).wf(),
        ensures
            final(self).wf(),
            final(self)@ == touched(old(self)@, spec_session_key(tenant_id@, sid@), now, at),
            r == (old(self)@.contains_key(spec_session_key(tenant_id@, sid@)) && unexpired(
                old(self)@[spec_session_key(tenant_id@, sid@)],
                now,
            )),
    {
        let key = session_key(tenant_id, sid);
        let ghost k = key@;
        let found = match self.sessions.get(key.as_str()) {
            None => None,
            Some(s) => Some(clone_session(s)),
        };
        match found {
            None => {
                assert(!old(self)@.contains_key(k));
                false
            },
            Some(s) => {
                assert(old(self)@[k] == s);
                if remaining_ttl_at(s.absolute_exp, now).is_none() {
                    self.sessions.remove_key(key.as_str());
                    assert(self@ =~= old(self)@.remove(k));
                    false
                } else {
                    let updated = UserSession { last_access_time: at, ..s };
                    let ghost u = updated;
                    self.sessions.upsert(key, updated);
                    assert(self@ =~= old(self)@.insert(k, u));
                    true
                }
            },
        }
    }

    /// Drops every session that has expired at `now`.
    #[verifier::spinoff_prover]
    pub fn cleanup_expired(&mut self, now: i64)
        requires
            old(self).wf(),
        ensures
            final(self).wf(),
            final(self)@ == live_entries(old(self)@, now),
    {
        let mut expired: Vec<String> = Vec::new();
        let mut i: usize = 0;
        while i < self.sessions.entries.len()
            invariant
                self.wf(),
                self == old(self),
                i <= self.sessions.entries@.len(),
                forall|j: int| 0 <= j < expired@.len() ==> (#[trigger] old(self)@.contains_key(expired@[j]@)) && !unexpired(old(self)@[expired@[j]@], now),
                forall|j: int| 0 <= j < i ==> unexpired(#[trigger] self.sessions.entries@[j].1, now) || exists|m: int| 0 <= m < expired@.len() && expired@[m]@ == self.sessions.entries@[j].0@,
            decreases self.sessions.entries.len() - i,
        {
            let e = &self.sessions.entries[i];
            let ghost prev = expired@;
            if remaining_ttl_at(e.1.absolute_exp, now).is_none() {
                proof {
                    crate::strset::lemma_map_entry(self.sessions, i as int);
                }
                expired.push(e.0.clone());
                proof {
                    assert(expired@[expired@.len() - 1]@ == self.sessions.entries@[i as int].0@);
                    assert forall|j: int| 0 <= j < i + 1 implies unexpired(#[trigger] self.sessions.entries@[j].1, now) || exists|m: int| 0 <= m < expired@.len() && expired@[m]@ == self.sessions.entries@[j].0@ by {
                        if j < i && !unexpired(self.sessions.entries@[j].1, now) {
                            let m = choose|m: int| 0 <= m < prev.len() && prev[m]@ == self.sessions.entries@[j].0@;
                            assert(expired@[m] == prev[m]);
                        } else if j == i {
                            assert(expired@[expired@.len() - 1]@ == self.sessions.entries@[j].0@);
                        }
                    }
                }
            }
            i = i + 1;
        }
        let mut k: usize = 0;
        while k < expired.len()
            invariant
                self.wf(),
                k <= expired@.len(),
                forall|j: int| 0 <= j < expired@.len() ==> (#[trigger] old(self)@.contains_key(expired@[j]@)) && !unexpired(old(self)@[expired@[j]@], now),
                forall|key: Seq<char>| #[trigger] self@.contains_key(key) ==> old(self)@.contains_key(key) && self@[key] == old(self)@[key],
                forall|key: Seq<char>| old(self)@.contains_key(key) && !self@.contains_key(key) ==> exists|m: int| 0 <= m < k && (#[trigger] expired@[m])@ == key,
                forall|j: int| 0 <= j < k ==> !self@.contains_key((#[trigger] expired@[j])@),
                forall|j: int| 0 <= j < old(self).sessions.entries@.len() ==> unexpired(#[trigger] old(self).sessions.entries@[j].1, now) || exists|m: int| 0 <= m < expired@.len() && expired@[m]@ == old(self).sessions.entries@[j].0@,
            decreases expired.len() - k,
        {
            let ghost before = self@;
            self.sessions.remove_key(expired[k].as_str());
            assert(self@ =~= before.remove(expired@[k as int]@));
            k = k + 1;
        }
        proof {
            assert forall|key: Seq<char>| live_entries(old(self)@, now).contains_key(key) implies self@.contains_key(key) by {
                if !self@.contains_key(key) {
                    let m = choose|m: int| 0 <= m < k && (#[trigger] expired@[m])@ == key;
                    assert(!unexpired(old(self)@[expired@[m]@], now));
                }
            }
            assert forall|key: Seq<char>| self@.contains_key(key) implies unexpired(old(self)@[key], now) by {
                crate::strset::lemma_map_key(old(self).sessions, key);
                let j = choose|j: int| 0 <= j < old(self).sessions.entries@.len() && old(self).sessions.entries@[j].0@ == key && old(self).sessions.entries@[j].1 == old(self)@[key];
                if !unexpired(old(self).sessions.entries@[j].1, now) {
                    let m = choose|m: int| 0 <= m < expired@.len() && expired@[m]@ == old(self).sessions.entries@[j].0@;
                    assert(!self@.contains_key(expired@[m]@));
                }
            }
            assert(self@ =~= live_entries(old(self)@, now));
        }
    }
}

/// A session just added and not yet expired is found live by `touch`.
pub proof fn law_added_session_is_touchable(m: Map<Seq<char>, UserSession>, s: UserSession, now: i64)
    requires
        unexpired(s, now),
    ensures
        ({
            let k = spec_session_key(s.tenant_id@, s.sid@);
            let m2 = m.insert(k, s);
            m2.contains_key(k) && unexpired(m2[k], now)
        }),
{
}

/// A session just removed is not found by `touch`, which then changes nothing.
pub proof fn law_removed_session_is_not_touchable(
    m: Map<Seq<char>, UserSession>,
    tenant_id: Seq<char>,
    sid: Seq<char>,
    now: i64,
    at: i64,
)
    ensures
        ({
            let k = spec_session_key(tenant_id, sid);
            let m2 = m.remove(k);
            !m2.contains_key(k) && touched(m2, k, now, at) == m2
        }),
{
}

/// After a cleanup at `now` every stored session is live at `now`, and every live session
/// is still there unchanged.
pub proof fn law_cleanup_keeps_exactly_live(m: Map<Seq<char>, UserSession>, now: i64)
    ensures
        forall|k: Seq<char>| #[trigger] live_entries(m, now).contains_key(k) ==> unexpired(live_entries(m, now)[k], now),
        forall|k: Seq<char>| m.contains_key(k) && unexpired(#[trigger] m[k], now) ==> live_entries(m, now).contains_key(k) && live_entries(m, now)[k] == m[k],
{
}

/// Listing a tenant's sessions at `now` gives sessions of that tenant only, each still live
/// (its absolute expiry after `now`), and every stored session of the tenant that is live.
pub proof fn law_tenant_listing_is_the_tenants_live_sessions(st: SessionStore, tenant_id: Seq<char>, now: i64)
    ensures
        ({
            let listed = st.values().filter(listed_for_tenant(tenant_id, now));
            &&& forall|i: int|
                0 <= i < listed.len() ==> (#[trigger] listed[i]).tenant_id@ == tenant_id && listed[i].absolute_exp > now
            &&& forall|j: int|
                0 <= j < st.values().len() && (#[trigger] st.values()[j]).tenant_id@ == tenant_id
                    && st.values()[j].absolute_exp > now ==> listed.contains(st.values()[j])
        }),
{
    let pred = listed_for_tenant(tenant_id, now);
    broadcast use vstd::seq_lib::group_filter_ensures;
    let listed = st.values().filter(pred);
    assert forall|i: int| 0 <= i < listed.len() implies (#[trigger] listed[i]).tenant_id@ == tenant_id
        && listed[i].absolute_exp > now by {
        assert(pred(listed[i]));
    }
    assert forall|j: int|
        0 <= j < st.values().len() && (#[trigger] st.values()[j]).tenant_id@ == tenant_id && st.values()[j].absolute_exp
            > now implies listed.contains(st.values()[j]) by {
        assert(pred(st.values()[j]));
    }
}

/// Listing one user's sessions in a tenant at `now` gives sessions of that user in that
/// tenant only, each still live (its absolute expiry after `now`), and every stored session of
/// theirs that is live; another user's session is never among them.
pub proof fn law_user_listing_is_the_users_live_sessions(st: SessionStore, tenant_id: Seq<char>, user_id: i64, now: i64)
    ensures
        ({
            let listed = st.values().filter(listed_for_user(tenant_id, user_id, now));
            &&& forall|i: int|
                0 <= i < listed.len() ==> (#[trigger] listed[i]).user_id == user_id && listed[i].tenant_id@ == tenant_id
                    && listed[i].absolute_exp > now
            &&& forall|j: int|
                0 <= j < st.values().len() && (#[trigger] st.values()[j]).user_id == user_id
                    && st.values()[j].tenant_id@ == tenant_id && st.values()[j].absolute_exp > now ==> listed.contains(
                    st.values()[j],
                )
        }),
{
    let pred = listed_for_user(tenant_id, user_id, now);
    broadcast use vstd::seq_lib::group_filter_ensures;
    let listed = st.values().filter(pred);
    assert forall|i: int| 0 <= i < listed.len() implies (#[trigger] listed[i]).user_id == user_id
        && listed[i].tenant_id@ == tenant_id && listed[i].absolute_exp > now by {
        assert(pred(listed[i]));
    }
    assert forall|j: int|
        0 <= j < st.values().len() && (#[trigger] st.values()[j]).user_id == user_id && st.values()[j].tenant_id@
            == tenant_id && st.values()[j].absolute_exp > now implies listed.contains(st.values()[j]) by {
        assert(pred(st.values()[j]));
    }
}

/// A live session stored in the process is listed for its tenant.
pub proof fn law_stored_live_session_is_listed(st: SessionStore, s: UserSession, now: i64)
    requires
        st.wf(),
        st@.contains_key(spec_session_key(s.tenant_id@, s.sid@)),
        st@[spec_session_key(s.tenant_id@, s.sid@)] == s,
        unexpired(s, now),
    ensures
        st.values().filter(listed_for_tenant(s.tenant_id@, now)).contains(s),
{
    let k = spec_session_key(s.tenant_id@, s.sid@);
    crate::strset::lemma_map_key(st.sessions, k);
    let j = choose|j: int| 0 <= j < st.sessions.entries@.len() && st.sessions.entries@[j].0@ == k && st.sessions.entries@[j].1 == st.sessions.get_spec(k).unwrap();
    assert(st.values()[j] == s);
    st.values().lemma_filter_contains(listed_for_tenant(s.tenant_id@, now), j);
}

// ---------------------------------------------------------------------------
// Shared-cache backend decisions
// ---------------------------------------------------------------------------
/// Keys fetched per multi-get.
pub const MGET_BATCH_SIZE: usize = 256;

/// What a compare-and-set on a session's metadata did.
#[derive(Debug, Clone, Copy, PartialEq, Eq, Structural)]
pub enum TouchCasOutcome {
    Skipped,
    Updated,
    Deleted,
}

/// Reads the status code of the compare-and-set script: 0 skipped, 1 updated, 2 deleted;
/// any other code means the cache misbehaved.
pub fn parse_touch_cas_outcome(code: i64) -> (r: AppResult<TouchCasOutcome>)
    ensures
        code == 0 ==> r == Ok::<TouchCasOutcome, AppError>(TouchCasOutcome::Skipped),
        code == 1 ==> r == Ok::<TouchCasOutcome, AppError>(TouchCasOutcome::Updated),
        code == 2 ==> r == Ok::<TouchCasOutcome, AppError>(TouchCasOutcome::Deleted),
        !(0 <= code <= 2) ==> r is Err && r->Err_0 is ServiceUnavailable,
{
    if code == 0 {
        Ok(TouchCasOutcome::Skipped)
    } else if code == 1 {
        Ok(TouchCasOutcome::Updated)
    } else if code == 2 {
        Ok(TouchCasOutcome::Deleted)
    } else {
        Err(AppError::ServiceUnavailable(owned("登录设备服务暂不可用")))
    }
}

/// A touch succeeded only when the metadata was updated.
pub fn touch_result(outcome: TouchCasOutcome) -> (r: AppResult<()>)
    ensures
        r is Ok <==> outcome == TouchCasOutcome::Updated,
        r is Err ==> r->Err_0 is ServiceUnavailable,
{
    match outcome {
        TouchCasOutcome::Updated => Ok(()),
        _ => Err(AppError::ServiceUnavailable(owned("登录设备元数据暂不可用"))),
    }
}

/// An index set's expiry is pushed out when it has none (`-1`) or ends before the session.
pub fn index_ttl_needs_extension(current_ttl: i64, ttl_secs: u64) -> (r: bool)
    ensures
        r == (current_ttl == -1 || current_ttl < redis_ttl_secs_spec(ttl_secs)),
{
    let wanted = redis_ttl_secs(ttl_secs);
    current_ttl == -1 || current_ttl < wanted
}

pub open spec fn redis_ttl_secs_spec(ttl_secs: u64) -> int {
    if ttl_secs <= i64::MAX as u64 {
        ttl_secs as int
    } else {
        i64::MAX as int
    }
}

/// The metadata keys to fetch for a listing: the keys found by scanning plus the keys of the
/// indexed session ids, sorted, each once.
pub fn merge_session_keys(scanned: Vec<String>, tenant_id: &str, indexed_sids: &[String]) -> (r: Vec<String>)
    ensures
        sorted_strict(views(r@)),
        views(r@).to_set() == views(scanned@).to_set().union(
            Set::new(|k: Seq<char>| exists|i: int| 0 <= i < indexed_sids@.len() && k == spec_session_key(tenant_id@, #[trigger] indexed_sids@[i]@)),
        ),
{
    let ghost scanned_set = views(scanned@).to_set();
    let mut keys = scanned;
    let mut i: usize = 0;
    while i < indexed_sids.len()
        invariant
            i <= indexed_sids.len(),
            views(keys@).to_set() == scanned_set.union(
                Set::new(|k: Seq<char>| exists|j: int| 0 <= j < i && k == spec_session_key(tenant_id@, #[trigger] indexed_sids@[j]@)),
            ),
        decreases indexed_sids.len() - i,
    {
        let ghost before = keys@;
        let k = session_key(tenant_id, indexed_sids[i].as_str());
        keys.push(k);
        proof {
            assert(views(keys@) =~= views(before).push(keys@[keys@.len() - 1]@));
            views(before).lemma_push_to_set_commute(keys@[keys@.len() - 1]@);
            assert(views(keys@).to_set() =~= scanned_set.union(
                Set::new(|k: Seq<char>| exists|j: int| 0 <= j < i + 1 && k == spec_session_key(tenant_id@, #[trigger] indexed_sids@[j]@)),
            )) by {
                assert forall|x: Seq<char>| Set::new(|k: Seq<char>| exists|j: int| 0 <= j < i + 1 && k == spec_session_key(tenant_id@, #[trigger] indexed_sids@[j]@)).contains(x)
                    implies views(keys@).to_set().contains(x) by {
                    let j = choose|j: int| 0 <= j < i + 1 && x == spec_session_key(tenant_id@, #[trigger] indexed_sids@[j]@);
                    if j < i {
                        assert(Set::new(|k: Seq<char>| exists|j: int| 0 <= j < i && k == spec_session_key(tenant_id@, #[trigger] indexed_sids@[j]@)).contains(x));
                    }
                }
            }
        }
        i = i + 1;
    }
    sort_dedup(keys)
}

} // verus!

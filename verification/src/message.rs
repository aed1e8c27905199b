//! Message center: message texts, audiences, expiry and retention batches.
use vstd::prelude::*;

use crate::error::{AppError, AppResult};
use crate::strset::StrMap;
use crate::text::{decimal, id_text, opt_id, opt_id_text, opt_string_view, owned, push_decimal, push_str, signed_decimal, str_eq};

verus! {

pub const MESSAGE_DISPATCH_JOB_TYPE: &'static str = "system.message.dispatch";
pub const MESSAGE_DISPATCH_REDIS_CHANNEL: &'static str = "ryframe:message:dispatch";
pub const MESSAGE_RETENTION_JOB_TYPE: &'static str = "system.message.retention";
/// Rows deleted per retention transaction.
pub const RETENTION_BATCH_SIZE: u64 = 500;
pub const MILLIS_PER_DAY: i64 = 86_400_000;

/// A title or body: literal text, or a localization key with its arguments (ordered by name).
pub enum MessageText {
    Literal { value: String },
    Key { key: String, args: StrMap<String> },
}

/// Who a message goes to.
#[derive(Debug, Clone, Copy, PartialEq, Eq, Structural)]
pub enum MessageAudienceKind {
    Tenant,
    Role,
    User,
}

/// One audience of a message.
#[derive(Debug, Clone, Copy, PartialEq, Eq, Structural)]
pub struct MessageAudienceSelector {
    pub kind: MessageAudienceKind,
    pub target_id: i64,
}

/// The stored text columns of a message.
pub struct PreparedMessageContent {
    pub title_text: Option<String>,
    pub body_text: Option<String>,
    pub title_key: Option<String>,
    pub body_key: Option<String>,
    /// The localization arguments, absent when there are none.
    pub args: Option<StrMap<String>>,
}

/// Arguments as (name, value) texts in order.
pub open spec fn args_view(m: StrMap<String>) -> Seq<(Seq<char>, Seq<char>)> {
    m.entries@.map_values(|e: (String, String)| (e.0@, e.1@))
}

fn same_args(a: &StrMap<String>, b: &StrMap<String>) -> (r: bool)
    ensures
        r == (args_view(*a) == args_view(*b)),
{
    if a.entries.len() != b.entries.len() {
        proof {
            assert(args_view(*a).len() != args_view(*b).len());
        }
        return false;
    }
    let mut i: usize = 0;
    while i < a.entries.len()
        invariant
            a.entries@.len() == b.entries@.len(),
            i <= a.entries@.len(),
            forall|k: int| 0 <= k < i ==> args_view(*a)[k] == args_view(*b)[k],
        decreases a.entries.len() - i,
    {
        if !str_eq(a.entries[i].0.as_str(), b.entries[i].0.as_str()) || !str_eq(a.entries[i].1.as_str(), b.entries[i].1.as_str()) {
            proof {
                assert(args_view(*a)[i as int] != args_view(*b)[i as int]);
            }
            return false;
        }
        i = i + 1;
    }
    assert(args_view(*a) =~= args_view(*b));
    true
}

fn clone_args(m: &StrMap<String>) -> (r: StrMap<String>)
    ensures
        r.entries@ == m.entries@,
{
    let mut entries: Vec<(String, String)> = Vec::new();
    let mut i: usize = 0;
    while i < m.entries.len()
        invariant
            i <= m.entries@.len(),
            entries@ == m.entries@.take(i as int),
        decreases m.entries.len() - i,
    {
        entries.push((m.entries[i].0.clone(), m.entries[i].1.clone()));
        assert(entries@ =~= m.entries@.take(i + 1 as int));
        i = i + 1;
    }
    assert(m.entries@.take(m.entries@.len() as int) =~= m.entries@);
    StrMap { entries }
}

/// Title and body must both be literal, or both keys with the same arguments; the stored
/// arguments are left out when there are none.
pub fn prepare_content(title: &MessageText, content: &MessageText) -> (r: AppResult<PreparedMessageContent>)
    ensures
        match (*title, *content) {
            (MessageText::Literal { value: t }, MessageText::Literal { value: c }) => r matches Ok(p) && p.title_text
                == Some(t) && p.body_text == Some(c) && p.title_key is None && p.body_key is None && p.args is None,
            (MessageText::Key { key: tk, args: ta }, MessageText::Key { key: bk, args: ba }) => if args_view(ta) == args_view(ba) {
                r matches Ok(p) && p.title_text is None && p.body_text is None && p.title_key == Some(tk)
                    && p.body_key == Some(bk) && (if ta.entries@.len() == 0 {
                    p.args is None
                } else {
                    p.args matches Some(a) && a.entries@ == ta.entries@
                })
            } else {
                r matches Err(e) && e is Validation
            },
            _ => r matches Err(e) && e is Validation,
        },
{
    match (title, content) {
        (MessageText::Literal { value: t }, MessageText::Literal { value: c }) => Ok(PreparedMessageContent {
            title_text: Some(t.clone()),
            body_text: Some(c.clone()),
            title_key: None,
            body_key: None,
            args: None,
        }),
        (MessageText::Key { key: tk, args: ta }, MessageText::Key { key: bk, args: ba }) => {
            if !same_args(ta, ba) {
                return Err(AppError::Validation(owned("消息标题和正文的本地化参数必须一致")));
            }
            let args = if ta.entries.len() == 0 {
                None
            } else {
                Some(clone_args(ta))
            };
            Ok(PreparedMessageContent {
                title_text: None,
                body_text: None,
                title_key: Some(tk.clone()),
                body_key: Some(bk.clone()),
                args,
            })
        },
        _ => Err(AppError::Validation(owned("消息标题和正文必须同时使用纯文本或本地化键"))),
    }
}

/// The message center refuses work while it is switched off.
pub fn ensure_enabled(enabled: bool) -> (r: AppResult<()>)
    ensures
        r is Ok <==> enabled,
        r is Err ==> r->Err_0 is ServiceUnavailable,
{
    if enabled {
        Ok(())
    } else {
        Err(AppError::ServiceUnavailable(owned("消息中心已关闭")))
    }
}

/// When a message published at `now` (Unix milliseconds) expires: the requested time, or the
/// end of the retention window; a requested time beyond that window is refused.
pub fn resolve_message_expiry(requested: Option<i64>, now: i64, retention_days: u32) -> (r: AppResult<i64>)
    requires
        now + retention_days * MILLIS_PER_DAY <= i64::MAX,
    ensures
        ({
            let maximum = now + retention_days * MILLIS_PER_DAY;
            match requested {
                None => r == Ok::<i64, AppError>(maximum as i64),
                Some(e) => if e <= maximum {
                    r == Ok::<i64, AppError>(e)
                } else {
                    r matches Err(err) && err is Validation && err.spec_message() == "消息有效期不能超过 "@
                        + decimal(retention_days as nat) + " 天"@
                },
            }
        }),
{
    let maximum = now + retention_days as i64 * MILLIS_PER_DAY;
    let expires_at = match requested {
        Some(e) => e,
        None => maximum,
    };
    if expires_at > maximum {
        let mut msg = owned("消息有效期不能超过 ");
        push_decimal(&mut msg, retention_days as u64);
        push_str(&mut msg, " 天");
        return Err(AppError::Validation(msg));
    }
    Ok(expires_at)
}

/// The tenant a message is published in: the one requested, else the actor's.
pub fn publish_tenant(requested: Option<String>, actor_tenant_id: &str) -> (r: String)
    ensures
        r@ == match requested {
            Some(t) => t@,
            None => actor_tenant_id@,
        },
{
    match requested {
        Some(t) => t,
        None => owned(actor_tenant_id),
    }
}

/// After a retention batch deleted `batch` rows: the saturating running total, and whether
/// the sweep is finished (a short batch).
pub fn retention_step(deleted: u64, batch: u64) -> (r: (u64, bool))
    ensures
        r.0 == if deleted + batch <= u64::MAX { deleted + batch } else { u64::MAX as int },
        r.1 == (batch < RETENTION_BATCH_SIZE),
{
    let total = if batch <= u64::MAX - deleted {
        deleted + batch
    } else {
        u64::MAX
    };
    (total, batch < RETENTION_BATCH_SIZE)
}

/// A stored message. `args` are its localization arguments when the stored JSON is a map of
/// strings (absent otherwise); `payload` is JSON text. Times are Unix milliseconds.
pub struct StoredMessage {
    pub id: i64,
    pub topic: String,
    pub title_text: Option<String>,
    pub body_text: Option<String>,
    pub title_key: Option<String>,
    pub body_key: Option<String>,
    pub args: Option<StrMap<String>>,
    pub severity: String,
    pub payload: Option<String>,
    pub published_at: i64,
    pub expires_at: Option<i64>,
}

/// A message as a recipient gets it, before it is rendered in the recipient's language.
pub struct MessageTemplate {
    pub id: String,
    pub topic: String,
    pub title_text: Option<String>,
    pub body_text: Option<String>,
    pub title_key: Option<String>,
    pub body_key: Option<String>,
    pub args: StrMap<String>,
    pub severity: String,
    pub payload: Option<String>,
    pub published_at: i64,
    pub expires_at: Option<i64>,
    pub acked_at: Option<i64>,
    pub read_at: Option<i64>,
}

/// A page of a recipient's inbox and where the next page starts.
pub struct MessageInbox {
    pub records: Vec<MessageTemplate>,
    pub next_cursor: Option<String>,
}

/// What publishing a message did.
pub struct PublishedMessage {
    pub message: MessageTemplate,
    pub recipient_count: usize,
    pub inserted: bool,
}

/// A message to deliver to one recipient.
pub struct MessageDelivery {
    pub tenant_id: String,
    pub user_id: i64,
    pub message: MessageTemplate,
}

/// A message of an inbox with its recipient's acknowledgement and read times.
pub struct RecipientMessage {
    pub message: StoredMessage,
    pub tenant_id: String,
    pub user_id: i64,
    pub acked_at: Option<i64>,
    pub read_at: Option<i64>,
}

/// `t` shows message `m` with the given recipient times: its id in decimal, its arguments (none
/// when they were not a map of strings), everything else as stored.
pub open spec fn template_of(t: MessageTemplate, m: StoredMessage, acked_at: Option<i64>, read_at: Option<i64>) -> bool {
    &&& t.id@ == signed_decimal(m.id as int)
    &&& t.topic == m.topic
    &&& t.title_text == m.title_text
    &&& t.body_text == m.body_text
    &&& t.title_key == m.title_key
    &&& t.body_key == m.body_key
    &&& t.args.wf()
    &&& (m.args matches Some(a) ==> t.args == a)
    &&& (m.args is None ==> forall|k: Seq<char>| #[trigger] t.args.get_spec(k) is None)
    &&& t.severity == m.severity
    &&& t.payload == m.payload
    &&& t.published_at == m.published_at
    &&& t.expires_at == m.expires_at
    &&& t.acked_at == acked_at
    &&& t.read_at == read_at
}

/// The template of a stored message for a recipient.
pub fn message_template(m: StoredMessage, acked_at: Option<i64>, read_at: Option<i64>) -> (r: MessageTemplate)
    requires
        m.args matches Some(a) ==> a.wf(),
    ensures
        template_of(r, m, acked_at, read_at),
{
    let args = match m.args {
        Some(a) => a,
        None => StrMap::new(),
    };
    MessageTemplate {
        id: id_text(m.id),
        topic: m.topic,
        title_text: m.title_text,
        body_text: m.body_text,
        title_key: m.title_key,
        body_key: m.body_key,
        args,
        severity: m.severity,
        payload: m.payload,
        published_at: m.published_at,
        expires_at: m.expires_at,
        acked_at,
        read_at,
    }
}

/// The delivery of an inbox message to its recipient.
pub fn message_delivery(record: RecipientMessage) -> (r: MessageDelivery)
    requires
        record.message.args matches Some(a) ==> a.wf(),
    ensures
        r.tenant_id == record.tenant_id,
        r.user_id == record.user_id,
        template_of(r.message, record.message, record.acked_at, record.read_at),
{
    let RecipientMessage { message, tenant_id, user_id, acked_at, read_at } = record;
    MessageDelivery { tenant_id, user_id, message: message_template(message, acked_at, read_at) }
}

/// A page of an inbox: its messages in order, and the next cursor in decimal.
pub fn message_inbox(records: Vec<RecipientMessage>, next_cursor: Option<i64>) -> (r: MessageInbox)
    requires
        forall|i: int| 0 <= i < records@.len() ==> ((#[trigger] records@[i]).message.args matches Some(a) ==> a.wf()),
    ensures
        r.records@.len() == records@.len(),
        forall|i: int|
            0 <= i < records@.len() ==> template_of(
                #[trigger] r.records@[i],
                records@[i].message,
                records@[i].acked_at,
                records@[i].read_at,
            ),
        opt_string_view(r.next_cursor) == opt_id_text(next_cursor),
{
    let ghost rs = records@;
    let n = records.len();
    let mut records = records;
    let mut out: Vec<MessageTemplate> = Vec::new();
    let mut i: usize = 0;
    while i < n
        invariant
            n == rs.len(),
            records@.len() + i == n,
            forall|k: int| 0 <= k < records@.len() ==> #[trigger] records@[k] == rs[k + i],
            forall|k: int| 0 <= k < rs.len() ==> ((#[trigger] rs[k]).message.args matches Some(a) ==> a.wf()),
            out@.len() == i,
            forall|k: int| 0 <= k < i ==> template_of(#[trigger] out@[k], rs[k].message, rs[k].acked_at, rs[k].read_at),
        decreases n - i,
    {
        let record = records.remove(0);
        assert(record == rs[i as int]);
        let RecipientMessage { message, tenant_id: _, user_id: _, acked_at, read_at } = record;
        out.push(message_template(message, acked_at, read_at));
        i = i + 1;
    }
    MessageInbox { records: out, next_cursor: opt_id(next_cursor) }
}

} // verus!

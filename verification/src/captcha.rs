//! One-time captcha answers: the in-process store and the check of an answer.
use vstd::prelude::*;

use crate::strset::StrMap;
use crate::text::{lower_seq, owned, push_str, to_ascii_lowercase, str_eq};

verus! {

/// Prefix of captcha keys in the shared cache.
pub const CAPTCHA_KEY_PREFIX: &'static str = "captcha_codes:";

/// A stored answer and when it was issued, in nanoseconds of a monotonic clock.
pub struct CaptchaEntry {
    pub answer: String,
    pub created_at: u64,
}

/// Answers compare without ASCII case.
pub open spec fn answer_matches(stored: Seq<char>, code: Seq<char>) -> bool {
    lower_seq(stored) == lower_seq(code)
}

/// `str::eq_ignore_ascii_case`.
pub fn eq_ignore_ascii_case(a: &str, b: &str) -> (r: bool)
    ensures
        r == answer_matches(a@, b@),
{
    let la = to_ascii_lowercase(a);
    let lb = to_ascii_lowercase(b);
    str_eq(la.as_str(), lb.as_str())
}

/// Key of a captcha in the shared cache.
pub fn captcha_key(id: &str) -> (r: String)
    ensures
        r@ == CAPTCHA_KEY_PREFIX@ + id@,
{
    let mut r = owned(CAPTCHA_KEY_PREFIX);
    push_str(&mut r, id);
    r
}

/// The answer to a check, given what the shared cache handed back (and removed).
pub fn verify_cached(stored: Option<&str>, code: &str) -> (r: bool)
    ensures
        r == match stored {
            None => false,
            Some(s) => answer_matches(s@, code@),
        },
{
    match stored {
        None => false,
        Some(s) => eq_ignore_ascii_case(s, code),
    }
}

/// Nanoseconds from `from` to `to`, zero when `to` is earlier (as `Instant::elapsed` saturates).
pub open spec fn elapsed(from: u64, to: u64) -> int {
    if to >= from {
        to - from
    } else {
        0
    }
}

/// An entry has expired once more than the TTL has passed since it was issued.
pub open spec fn entry_expired(e: CaptchaEntry, now: u64, ttl_secs: u64) -> bool {
    elapsed(e.created_at, now) > ttl_secs * 1_000_000_000
}

fn is_expired(created_at: u64, now: u64, ttl_secs: u64) -> (r: bool)
    ensures
        r == (elapsed(created_at, now) > ttl_secs * 1_000_000_000),
{
    let passed: u64 = if now >= created_at {
        now - created_at
    } else {
        0
    };
    let limit: u128 = ttl_secs as u128 * 1_000_000_000u128;
    passed as u128 > limit
}

/// Captcha answers of a single process, each usable once, valid for `ttl_secs`.
pub struct CaptchaMemoryStore {
    pub entries: StrMap<CaptchaEntry>,
    pub ttl_secs: u64,
}

/// The store after a check of `id`: the entry is gone whatever the outcome.
pub open spec fn verify_outcome(m: Map<Seq<char>, CaptchaEntry>, id: Seq<char>, code: Seq<char>, now: u64, ttl_secs: u64) -> bool {
    m.contains_key(id) && !entry_expired(m[id], now, ttl_secs) && answer_matches(m[id].answer@, code)
}

pub open spec fn live_captchas(m: Map<Seq<char>, CaptchaEntry>, now: u64, ttl_secs: u64) -> Map<Seq<char>, CaptchaEntry> {
    Map::new(|k: Seq<char>| m.contains_key(k) && !entry_expired(m[k], now, ttl_secs), |k: Seq<char>| m[k])
}

impl View for CaptchaMemoryStore {
    type V = Map<Seq<char>, CaptchaEntry>;

    /// The stored answers by key.
    open spec fn view(&self) -> Map<Seq<char>, CaptchaEntry> {
        Map::new(|k: Seq<char>| self.entries.get_spec(k) is Some, |k: Seq<char>| self.entries.get_spec(k).unwrap())
    }
}

impl CaptchaMemoryStore {
    pub open spec fn wf(&self) -> bool {
        self.entries.wf()
    }

    /// An empty store whose answers live `ttl_secs` seconds.
    pub fn new_in_memory(ttl_secs: u64) -> (r: CaptchaMemoryStore)
        ensures
            r.wf(),
            r@ == Map::<Seq<char>, CaptchaEntry>::empty(),
            r.ttl_secs == ttl_secs,
    {
        let r = CaptchaMemoryStore { entries: StrMap::new(), ttl_secs };
        assert(r@ =~= Map::<Seq<char>, CaptchaEntry>::empty());
        r
    }

    /// Stores `answer` for `id`, issued at `now`, replacing an earlier one.
    pub fn set(&mut self, id: String, answer: String, now: u64)
        requires
            old(self).wf(),
        ensures
            final(self).wf(),
            final(self).ttl_secs == old(self).ttl_secs,
            final(self)@ == old(self)@.insert(id@, CaptchaEntry { answer, created_at: now }),
    {
        let ghost k = id@;
        let e = CaptchaEntry { answer, created_at: now };
        let ghost ev = e;
        self.entries.upsert(id, e);
        assert(self@ =~= old(self)@.insert(k, ev));
    }

    /// Checks `code` against the answer of `id` and consumes the answer: true only when it
    /// exists, has not expired at `now`, and matches without ASCII case.
    pub fn verify(&mut self, id: &str, code: &str, now: u64) -> (r: bool)
        requires
            old(self).wf(),
        ensures
            final(self).wf(),
            final(self).ttl_secs == old(self).ttl_secs,
            final(self)@ == old(self)@.remove(id@),
            r == verify_outcome(old(self)@, id@, code@, now, old(self).ttl_secs),
    {
        let result = match self.entries.get(id) {
            None => false,
            Some(e) => !is_expired(e.created_at, now, self.ttl_secs) && eq_ignore_ascii_case(e.answer.as_str(), code),
        };
        self.entries.remove_key(id);
        assert(self@ =~= old(self)@.remove(id@));
        result
    }

    /// Drops every answer that has expired at `now`.
    #[verifier::spinoff_prover]
    pub fn gc(&mut self, now: u64)
        requires
            old(self).wf(),
        ensures
            final(self).wf(),
            final(self).ttl_secs == old(self).ttl_secs,
            final(self)@ == live_captchas(old(self)@, now, old(self).ttl_secs),
    {
        let ttl = self.ttl_secs;
        let mut expired: Vec<String> = Vec::new();
        let mut i: usize = 0;
        while i < self.entries.entries.len()
            invariant
                self.wf(),
                self == old(self),
                ttl == self.ttl_secs,
                i <= self.entries.entries@.len(),
                forall|j: int| 0 <= j < expired@.len() ==> (#[trigger] old(self)@.contains_key(expired@[j]@)) && entry_expired(old(self)@[expired@[j]@], now, ttl),
                forall|j: int| 0 <= j < i ==> !entry_expired(#[trigger] self.entries.entries@[j].1, now, ttl) || exists|m: int| 0 <= m < expired@.len() && expired@[m]@ == self.entries.entries@[j].0@,
            decreases self.entries.entries.len() - i,
        {
            let e = &self.entries.entries[i];
            let ghost prev = expired@;
            if is_expired(e.1.created_at, now, ttl) {
                proof {
                    crate::strset::lemma_map_entry(self.entries, i as int);
                }
                expired.push(e.0.clone());
                proof {
                    assert(expired@[expired@.len() - 1]@ == self.entries.entries@[i as int].0@);
                    assert forall|j: int| 0 <= j < i + 1 implies !entry_expired(#[trigger] self.entries.entries@[j].1, now, ttl) || exists|m: int| 0 <= m < expired@.len() && expired@[m]@ == self.entries.entries@[j].0@ by {
                        if j < i && entry_expired(self.entries.entries@[j].1, now, ttl) {
                            let m = choose|m: int| 0 <= m < prev.len() && prev[m]@ == self.entries.entries@[j].0@;
                            assert(expired@[m] == prev[m]);
                        } else if j == i {
                            assert(expired@[expired@.len() - 1]@ == self.entries.entries@[j].0@);
                        }
                    }
                }
            }
            i = i + 1;
        }
        let mut k: usize = 0;
        while k < expired.len()
            invariant
                self.wf(),
                self.ttl_secs == ttl,
                ttl == old(self).ttl_secs,
                k <= expired@.len(),
                forall|j: int| 0 <= j < expired@.len() ==> (#[trigger] old(self)@.contains_key(expired@[j]@)) && entry_expired(old(self)@[expired@[j]@], now, ttl),
                forall|key: Seq<char>| #[trigger] self@.contains_key(key) ==> old(self)@.contains_key(key) && self@[key] == old(self)@[key],
                forall|key: Seq<char>| old(self)@.contains_key(key) && !self@.contains_key(key) ==> exists|m: int| 0 <= m < k && (#[trigger] expired@[m])@ == key,
                forall|j: int| 0 <= j < k ==> !self@.contains_key((#[trigger] expired@[j])@),
                forall|j: int| 0 <= j < old(self).entries.entries@.len() ==> !entry_expired(#[trigger] old(self).entries.entries@[j].1, now, ttl) || exists|m: int| 0 <= m < expired@.len() && expired@[m]@ == old(self).entries.entries@[j].0@,
            decreases expired.len() - k,
        {
            let ghost before = self@;
            self.entries.remove_key(expired[k].as_str());
            assert(self@ =~= before.remove(expired@[k as int]@));
            k = k + 1;
        }
        proof {
            assert forall|key: Seq<char>| live_captchas(old(self)@, now, ttl).contains_key(key) implies self@.contains_key(key) by {
                if !self@.contains_key(key) {
                    let m = choose|m: int| 0 <= m < k && (#[trigger] expired@[m])@ == key;
                    assert(entry_expired(old(self)@[expired@[m]@], now, ttl));
                }
            }
            assert forall|key: Seq<char>| self@.contains_key(key) implies !entry_expired(old(self)@[key], now, ttl) by {
                crate::strset::lemma_map_key(old(self).entries, key);
                let j = choose|j: int| 0 <= j < old(self).entries.entries@.len() && old(self).entries.entries@[j].0@ == key && old(self).entries.entries@[j].1 == old(self)@[key];
                if entry_expired(old(self).entries.entries@[j].1, now, ttl) {
                    let m = choose|m: int| 0 <= m < expired@.len() && expired@[m]@ == old(self).entries.entries@[j].0@;
                    assert(!self@.contains_key(expired@[m]@));
                }
            }
            assert(self@ =~= live_captchas(old(self)@, now, ttl));
        }
    }
}

/// An answer checked within its lifetime is accepted in any ASCII case.
pub proof fn law_fresh_answer_is_accepted(
    m: Map<Seq<char>, CaptchaEntry>,
    id: Seq<char>,
    answer: String,
    code: Seq<char>,
    issued: u64,
    now: u64,
    ttl_secs: u64,
)
    requires
        elapsed(issued, now) <= ttl_secs * 1_000_000_000,
        lower_seq(code) == lower_seq(answer@),
    ensures
        verify_outcome(m.insert(id, CaptchaEntry { answer, created_at: issued }), id, code, now, ttl_secs),
{
}

/// An answer can be used once: after a check, a second check of the same id fails.
pub proof fn law_answer_is_single_use(
    m: Map<Seq<char>, CaptchaEntry>,
    id: Seq<char>,
    code: Seq<char>,
    now: u64,
    ttl_secs: u64,
)
    ensures
        !verify_outcome(m.remove(id), id, code, now, ttl_secs),
{
}

/// An answer checked after its lifetime is refused whatever the code.
pub proof fn law_expired_answer_is_refused(
    m: Map<Seq<char>, CaptchaEntry>,
    id: Seq<char>,
    code: Seq<char>,
    now: u64,
    ttl_secs: u64,
)
    requires
        m.contains_key(id),
        entry_expired(m[id], now, ttl_secs),
    ensures
        !verify_outcome(m, id, code, now, ttl_secs),
{
}

} // verus!

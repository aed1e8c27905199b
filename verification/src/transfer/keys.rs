//! Stable keys of transferable configuration and the checks on their text.
use vstd::prelude::*;

use crate::crypto::{hex_seq, is_lower_hex_digit, sha256, sha256_hex};
use crate::product_change::{json_quoted, push_json_string};
use crate::error::{AppError, AppResult};
use crate::text::{
    digit_char,
    byte_len, chars_of, decimal, lower_seq, owned, push_decimal, push_signed_decimal, push_str,
    signed_decimal, str_eq, to_ascii_lowercase, utf8_len,
};

verus! {

/// Stable keys compare without ASCII case.
pub open spec fn spec_normalize_stable_key(v: Seq<char>) -> Seq<char> {
    lower_seq(v)
}

/// ASCII-lower-cases a stable key.
pub fn normalize_stable_key(v: &str) -> (r: String)
    ensures
        r@ == spec_normalize_stable_key(v@),
{
    to_ascii_lowercase(v)
}

/// Department paths compare as they are (binary); every other resource's key ignores ASCII case.
pub open spec fn spec_normalize_resource_stable_key(resource_type: Seq<char>, v: Seq<char>) -> Seq<
    char,
> {
    if resource_type == "department"@ {
        v
    } else {
        lower_seq(v)
    }
}

pub fn normalize_resource_stable_key(resource_type: &str, v: &str) -> (r: String)
    ensures
        r@ == spec_normalize_resource_stable_key(resource_type@, v@),
{
    if str_eq(resource_type, "department") {
        owned(v)
    } else {
        to_ascii_lowercase(v)
    }
}

/// One path segment with its byte length in front: `{len}:{part}`.
pub open spec fn path_segment(part: Seq<char>) -> Seq<char> {
    decimal(utf8_len(part)) + seq![':'] + part
}

/// Length-prefixed segments joined with `/`, so that no two paths share a key.
pub open spec fn spec_join_path(path: Seq<Seq<char>>) -> Seq<char>
    decreases path.len(),
{
    if path.len() == 0 {
        seq![]
    } else if path.len() == 1 {
        path_segment(path[0])
    } else {
        spec_join_path(path.drop_last()) + seq!['/'] + path_segment(path.last())
    }
}

pub open spec fn strings_view(v: Seq<String>) -> Seq<Seq<char>> {
    v.map_values(|s: String| s@)
}

/// Renders a department path as its stable key.
pub fn join_path(path: &[String]) -> (r: String)
    ensures
        r@ == spec_join_path(strings_view(path@)),
{
    let mut r = String::new();
    let mut i: usize = 0;
    let ghost pv = strings_view(path@);
    while i < path.len()
        invariant
            i <= path.len(),
            pv == strings_view(path@),
            r@ == spec_join_path(pv.take(i as int)),
        decreases path.len() - i,
    {
        let part = path[i].as_str();
        let ghost before = r@;
        if i > 0 {
            crate::text::push_char(&mut r, '/');
        }
        let n = byte_len(part);
        push_decimal(&mut r, n as u64);
        crate::text::push_char(&mut r, ':');
        push_str(&mut r, part);
        proof {
            let t = pv.take(i + 1 as int);
            assert(t.drop_last() =~= pv.take(i as int));
            assert(t.last() == part@);
            if i == 0 {
                assert(r@ =~= path_segment(part@));
            } else {
                assert(r@ =~= before + seq!['/'] + path_segment(part@));
            }
        }
        i = i + 1;
    }
    assert(pv.take(path.len() as int) =~= pv);
    r
}

/// `route:{len}:{route_key}`.
pub open spec fn spec_route_menu_key(route_key: Seq<char>) -> Seq<char> {
    "route:"@ + decimal(utf8_len(route_key)) + seq![':'] + route_key
}

pub fn route_menu_key(route_key: &str) -> (r: String)
    ensures
        r@ == spec_route_menu_key(route_key@),
{
    let mut r = owned("route:");
    push_decimal(&mut r, byte_len(route_key) as u64);
    crate::text::push_char(&mut r, ':');
    push_str(&mut r, route_key);
    r
}

/// `action:{len}:{parent_key}:{len}:{permission_code}`.
pub open spec fn spec_action_menu_key(parent_key: Seq<char>, permission_code: Seq<char>) -> Seq<
    char,
> {
    "action:"@ + decimal(utf8_len(parent_key)) + seq![':'] + parent_key + seq![':'] + decimal(
        utf8_len(permission_code),
    ) + seq![':'] + permission_code
}

pub fn action_menu_key(parent_key: &str, permission_code: &str) -> (r: String)
    ensures
        r@ == spec_action_menu_key(parent_key@, permission_code@),
{
    let mut r = owned("action:");
    push_decimal(&mut r, byte_len(parent_key) as u64);
    crate::text::push_char(&mut r, ':');
    push_str(&mut r, parent_key);
    crate::text::push_char(&mut r, ':');
    push_decimal(&mut r, byte_len(permission_code) as u64);
    crate::text::push_char(&mut r, ':');
    push_str(&mut r, permission_code);
    r
}

pub open spec fn starts_with(s: Seq<char>, prefix: Seq<char>) -> bool {
    prefix.len() <= s.len() && s.subrange(0, prefix.len() as int) == prefix
}

fn chars_start_with(s: &[char], prefix: &str) -> (r: bool)
    ensures
        r == starts_with(s@, prefix@),
{
    let p = chars_of(prefix);
    if p.len() > s.len() {
        return false;
    }
    let mut i: usize = 0;
    while i < p.len()
        invariant
            p@ == prefix@,
            p.len() <= s.len(),
            i <= p.len(),
            forall|j: int| 0 <= j < i ==> s@[j] == p@[j],
        decreases p.len() - i,
    {
        if s[i] != p[i] {
            assert(s@.subrange(0, p@.len() as int)[i as int] != p@[i as int]);
            return false;
        }
        i = i + 1;
    }
    assert(s@.subrange(0, p@.len() as int) =~= p@);
    true
}

/// Codes reserved to the platform: `platform:`, `tenant:` and `monitor:retention:` families,
/// compared without ASCII case.
pub open spec fn spec_is_platform_only_permission(code: Seq<char>) -> bool {
    let n = lower_seq(code);
    ||| starts_with(n, "platform:"@)
    ||| n == "tenant:*"@
    ||| starts_with(n, "tenant:"@)
    ||| n == "monitor:retention:*"@
    ||| starts_with(n, "monitor:retention:"@)
}

pub fn is_platform_only_permission(code: &str) -> (r: bool)
    ensures
        r == spec_is_platform_only_permission(code@),
{
    let n = to_ascii_lowercase(code);
    let v = chars_of(n.as_str());
    chars_start_with(v.as_slice(), "platform:") || str_eq(n.as_str(), "tenant:*")
        || chars_start_with(v.as_slice(), "tenant:") || str_eq(n.as_str(), "monitor:retention:*")
        || chars_start_with(v.as_slice(), "monitor:retention:")
}

/// Some `:`-separated segment of the code is exactly `*`.
pub open spec fn spec_permission_contains_wildcard(code: Seq<char>) -> bool {
    exists|i: int|
        0 <= i < code.len() && #[trigger] code[i] == '*' && (i == 0 || code[i - 1] == ':') && (i
            == code.len() - 1 || code[i + 1] == ':')
}

/// A whole `*` segment is a wildcard wherever it stands (alone, or last after a `:`), and a
/// code with no `*` at all has none.
pub proof fn law_wildcard_is_a_whole_star_segment(prefix: Seq<char>, code: Seq<char>)
    ensures
        spec_permission_contains_wildcard(seq!['*']),
        spec_permission_contains_wildcard(prefix + seq![':', '*']),
        spec_permission_contains_wildcard(seq!['*', ':'] + prefix),
        (forall|i: int| 0 <= i < code.len() ==> code[i] != '*') ==> !spec_permission_contains_wildcard(code),
{
    assert(seq!['*'][0] == '*');
    let a = prefix + seq![':', '*'];
    assert(a[a.len() - 1] == '*' && a[a.len() - 2] == ':');
    let b = seq!['*', ':'] + prefix;
    assert(b[0] == '*' && b[1] == ':');
}

/// Codes under `platform:`, `tenant:` and `monitor:retention:` are reserved to the platform,
/// whatever follows and in any ASCII case of the prefix.
pub proof fn law_platform_prefixes_are_reserved(rest: Seq<char>)
    ensures
        spec_is_platform_only_permission("platform:"@ + rest),
        spec_is_platform_only_permission("PLATFORM:"@ + rest),
        spec_is_platform_only_permission("tenant:"@ + rest),
        spec_is_platform_only_permission("TENANT:"@ + rest),
        spec_is_platform_only_permission("monitor:retention:"@ + rest),
{
    reveal_strlit("platform:");
    reveal_strlit("PLATFORM:");
    reveal_strlit("tenant:");
    reveal_strlit("TENANT:");
    reveal_strlit("monitor:retention:");
    let ps: Seq<Seq<char>> = seq!["platform:"@, "PLATFORM:"@, "tenant:"@, "TENANT:"@, "monitor:retention:"@];
    let lowered: Seq<Seq<char>> = seq!["platform:"@, "platform:"@, "tenant:"@, "tenant:"@, "monitor:retention:"@];
    assert forall|k: int| 0 <= k < 5 implies starts_with(lower_seq(#[trigger] ps[k] + rest), lowered[k]) by {
        let n = lower_seq(ps[k] + rest);
        assert(lower_seq(ps[k]) =~= lowered[k]);
        assert(n =~= lower_seq(ps[k]) + lower_seq(rest));
        assert(n.subrange(0, lowered[k].len() as int) =~= lowered[k]);
    }
    assert(ps[0] == "platform:"@ && ps[1] == "PLATFORM:"@ && ps[2] == "tenant:"@ && ps[3] == "TENANT:"@ && ps[4]
        == "monitor:retention:"@);
}

pub fn permission_contains_wildcard(code: &str) -> (r: bool)
    ensures
        r == spec_permission_contains_wildcard(code@),
{
    let v = chars_of(code);
    let mut i: usize = 0;
    while i < v.len()
        invariant
            v@ == code@,
            i <= v.len(),
            forall|j: int|
                0 <= j < i ==> !(#[trigger] v@[j] == '*' && (j == 0 || v@[j - 1] == ':') && (j
                    == v@.len() - 1 || v@[j + 1] == ':')),
        decreases v.len() - i,
    {
        if v[i] == '*' && (i == 0 || v[i - 1] == ':') && (i + 1 == v.len() || v[i + 1] == ':') {
            return true;
        }
        i = i + 1;
    }
    false
}

/// Texts of a plan item must fit their column: at most `max_chars` characters.
pub fn validate_transfer_item_text(value: &str, max_chars: usize, label: &str) -> (r: AppResult<()>)
    ensures
        r is Ok <==> value@.len() <= max_chars,
        r is Err ==> r->Err_0 is Validation,
{
    if chars_of(value).len() > max_chars {
        let mut m = owned(label);
        push_str(&mut m, "超过数据库字段上限（");
        push_decimal(&mut m, max_chars as u64);
        push_str(&mut m, " 个字符）");
        return Err(AppError::Validation(m));
    }
    Ok(())
}

pub open spec fn is_hex_char(c: char) -> bool {
    ('0' <= c && c <= '9') || ('a' <= c && c <= 'f') || ('A' <= c && c <= 'F')
}

/// A SHA-256 in hex: 64 bytes, all hex digits.
pub open spec fn spec_sha256_hex_ok(v: Seq<char>) -> bool {
    utf8_len(v) == 64 && forall|i: int| 0 <= i < v.len() ==> is_hex_char(#[trigger] v[i])
}

pub fn validate_sha256(value: &str) -> (r: AppResult<()>)
    ensures
        r is Ok <==> spec_sha256_hex_ok(value@),
        r is Err ==> r->Err_0 is Validation,
{
    let v = chars_of(value);
    let mut all = true;
    let mut i: usize = 0;
    while i < v.len()
        invariant
            i <= v.len(),
            all == forall|j: int| 0 <= j < i ==> is_hex_char(#[trigger] v@[j]),
        decreases v.len() - i,
    {
        let c = v[i];
        if !(('0' <= c && c <= '9') || ('a' <= c && c <= 'f') || ('A' <= c && c <= 'F')) {
            all = false;
        }
        i = i + 1;
    }
    if byte_len(value) == 64 && all {
        Ok(())
    } else {
        Err(AppError::Validation(owned("幂等键哈希必须是 64 位十六进制 SHA-256")))
    }
}

/// `sha256_hex("{request_kind}:{bundle_id}")`.
pub open spec fn spec_transfer_request_fingerprint(request_kind: Seq<char>, bundle_id: i64) -> Seq<
    char,
> {
    hex_seq(sha256(vstd::utf8::encode_utf8(request_kind + seq![':'] + signed_decimal(bundle_id as int))))
}

pub fn transfer_request_fingerprint(request_kind: &str, bundle_id: i64) -> (r: String)
    ensures
        r@ == spec_transfer_request_fingerprint(request_kind@, bundle_id),
        r@.len() == 64,
        forall|i: int| 0 <= i < r@.len() ==> is_lower_hex_digit(#[trigger] r@[i]),
{
    let mut text = owned(request_kind);
    crate::text::push_char(&mut text, ':');
    push_signed_decimal(&mut text, bundle_id);
    assert(text@ =~= request_kind@ + seq![':'] + signed_decimal(bundle_id as int));
    sha256_hex(text.as_str().as_bytes())
}

/// The JSON the preview plan hash is taken of: the package's resource digest, the target's
/// resource digest, and the target's configuration version and authorization epoch.
pub open spec fn plan_hash_json(
    resources_sha256: Seq<char>,
    target_resources_sha256: Seq<char>,
    configuration_version: i64,
    authorization_epoch: i32,
) -> Seq<char> {
    "{\"resources_sha256\":"@ + json_quoted(resources_sha256) + ",\"target_resources_sha256\":"@ + json_quoted(
        target_resources_sha256,
    ) + ",\"target_configuration_version\":"@ + signed_decimal(configuration_version as int)
        + ",\"target_authorization_epoch\":"@ + signed_decimal(authorization_epoch as int) + "}"@
}

/// The hash of a preview plan: hex SHA-256 of `plan_hash_json`. It changes whenever the
/// package, the target's resources, its configuration version or its authorization epoch do.
pub fn preview_plan_hash(
    resources_sha256: &str,
    target_resources_sha256: &str,
    configuration_version: i64,
    authorization_epoch: i32,
) -> (r: AppResult<String>)
    ensures
        r matches Ok(h) ==> h@ == hex_seq(
            sha256(
                vstd::utf8::encode_utf8(
                    plan_hash_json(resources_sha256@, target_resources_sha256@, configuration_version, authorization_epoch),
                ),
            ),
        ),
        r is Ok,
{
    let mut text = owned("{\"resources_sha256\":");
    push_json_string(&mut text, resources_sha256);
    push_str(&mut text, ",\"target_resources_sha256\":");
    push_json_string(&mut text, target_resources_sha256);
    push_str(&mut text, ",\"target_configuration_version\":");
    push_signed_decimal(&mut text, configuration_version);
    push_str(&mut text, ",\"target_authorization_epoch\":");
    push_signed_decimal(&mut text, authorization_epoch as i64);
    push_str(&mut text, "}");
    assert(text@ =~= plan_hash_json(resources_sha256@, target_resources_sha256@, configuration_version, authorization_epoch));
    Ok(sha256_hex(text.as_str().as_bytes()))
}

proof fn lemma_utf8_len_add(a: Seq<char>, b: Seq<char>)
    ensures
        utf8_len(a + b) == utf8_len(a) + utf8_len(b),
    decreases a.len(),
{
    if a.len() == 0 {
        assert(a + b =~= b);
    } else {
        lemma_utf8_len_add(a.drop_first(), b);
        assert((a + b).drop_first() =~= a.drop_first() + b);
        assert((a + b)[0] == a[0]);
    }
}

proof fn lemma_utf8_len_at_least_chars(a: Seq<char>)
    ensures
        utf8_len(a) >= a.len(),
    decreases a.len(),
{
    if a.len() > 0 {
        lemma_utf8_len_at_least_chars(a.drop_first());
    }
}

/// Of two prefixes of one text, the one with a given UTF-8 length is unique.
proof fn lemma_prefix_by_utf8_len(a: Seq<char>, x: Seq<char>, b: Seq<char>, y: Seq<char>)
    requires
        a + x == b + y,
        utf8_len(a) == utf8_len(b),
    ensures
        a == b,
        x == y,
{
    let t = a + x;
    if a.len() <= b.len() {
        let mid = b.subrange(a.len() as int, b.len() as int);
        assert(b =~= a + mid) by {
            assert forall|i: int| 0 <= i < a.len() implies b[i] == a[i] by {
                assert(t[i] == a[i] && t[i] == b[i]);
            }
        }
        lemma_utf8_len_add(a, mid);
        lemma_utf8_len_at_least_chars(mid);
        assert(mid.len() == 0);
        assert(a =~= b);
    } else {
        let mid = a.subrange(b.len() as int, a.len() as int);
        assert(a =~= b + mid) by {
            assert forall|i: int| 0 <= i < b.len() implies a[i] == b[i] by {
                assert(t[i] == a[i] && t[i] == b[i]);
            }
        }
        lemma_utf8_len_add(b, mid);
        lemma_utf8_len_at_least_chars(mid);
        assert(false);
    }
    assert(x =~= t.subrange(a.len() as int, t.len() as int));
    assert(y =~= t.subrange(b.len() as int, t.len() as int));
}

pub open spec fn is_decimal_digit(c: char) -> bool {
    '0' <= c && c <= '9'
}

proof fn lemma_decimal_digits(n: nat)
    ensures
        decimal(n).len() >= 1,
        forall|i: int| 0 <= i < decimal(n).len() ==> is_decimal_digit(#[trigger] decimal(n)[i]),
    decreases n,
{
    if n >= 10 {
        lemma_decimal_digits(n / 10);
    }
}

proof fn lemma_digit_char_value(d: nat)
    requires
        d < 10,
    ensures
        digit_char(d) as u32 == 48 + d,
{
    assert(('0' as u32) == 48);
    assert((48 + d) as u32 == 48 + d);

}

proof fn lemma_decimal_injective(n: nat, m: nat)
    requires
        decimal(n) == decimal(m),
    ensures
        n == m,
    decreases n,
{
    lemma_decimal_digits(n);
    lemma_decimal_digits(m);
    if n < 10 && m < 10 {
        assert(decimal(n) == seq![digit_char(n)]);
        assert(decimal(m) == seq![digit_char(m)]);
        assert(decimal(n)[0] == decimal(m)[0]);
        assert(seq![digit_char(n)][0] == digit_char(n));
        assert(seq![digit_char(m)][0] == digit_char(m));
        assert(digit_char(n) == digit_char(m));
        lemma_digit_char_value(n);
        lemma_digit_char_value(m);
        assert(digit_char(n) as u32 == digit_char(m) as u32);
    } else if n < 10 {
        lemma_decimal_digits(m / 10);
        assert(decimal(m).len() >= 2);
    } else if m < 10 {
        lemma_decimal_digits(n / 10);
        assert(decimal(n).len() >= 2);
    } else {
        assert(decimal(n).last() == decimal(m).last());
        assert(decimal(n).last() == digit_char(n % 10));
        assert(decimal(m).last() == digit_char(m % 10));
        lemma_digit_char_value(n % 10);
        lemma_digit_char_value(m % 10);
        assert(digit_char(n % 10) as u32 == digit_char(m % 10) as u32);
        assert(n % 10 == m % 10);
        assert(decimal(n).drop_last() =~= decimal(n / 10));
        assert(decimal(m).drop_last() =~= decimal(m / 10));
        lemma_decimal_injective(n / 10, m / 10);
        assert(n == (n / 10) * 10 + n % 10);
        assert(m == (m / 10) * 10 + m % 10);
    }
}

/// The key of a path read from the front: its first segment, then `/` and the key of the rest.
proof fn lemma_join_path_front(path: Seq<Seq<char>>)
    requires
        path.len() >= 2,
    ensures
        spec_join_path(path) == path_segment(path[0]) + seq!['/'] + spec_join_path(path.drop_first()),
    decreases path.len(),
{
    if path.len() == 2 {
        assert(path.drop_last().len() == 1);
        assert(path.drop_first().len() == 1);
        assert(spec_join_path(path.drop_first()) == path_segment(path[1]));
        assert(spec_join_path(path.drop_last()) == path_segment(path[0]));
    } else {
        let init = path.drop_last();
        lemma_join_path_front(init);
        assert(init.drop_first() =~= path.drop_first().drop_last());
        assert(path.drop_first().last() == path.last());
        assert(spec_join_path(path) =~= path_segment(path[0]) + seq!['/'] + spec_join_path(path.drop_first()));
    }
}

/// A path's key is its first segment followed by what comes after it.
proof fn lemma_join_path_split(path: Seq<Seq<char>>)
    requires
        path.len() >= 1,
    ensures
        spec_join_path(path) == path_segment(path[0]) + (if path.len() == 1 {
            Seq::<char>::empty()
        } else {
            seq!['/'] + spec_join_path(path.drop_first())
        }),
{
    if path.len() == 1 {
        assert(spec_join_path(path) =~= path_segment(path[0]) + Seq::<char>::empty());
    } else {
        lemma_join_path_front(path);
        assert(spec_join_path(path) =~= path_segment(path[0]) + (seq!['/'] + spec_join_path(path.drop_first())));
    }
}

/// No two department paths share a key: each segment carries its UTF-8 length in front, so
/// segments holding `/`, `:` or digits cannot be confused with the framing.
pub proof fn law_join_path_injective(p: Seq<Seq<char>>, q: Seq<Seq<char>>)
    requires
        spec_join_path(p) == spec_join_path(q),
    ensures
        p == q,
    decreases p.len(),
{
    if p.len() == 0 || q.len() == 0 {
        if p.len() > 0 {
            lemma_join_path_split(p);
            lemma_decimal_digits(utf8_len(p[0]));
            assert(spec_join_path(p).len() > 0);
        }
        if q.len() > 0 {
            lemma_join_path_split(q);
            lemma_decimal_digits(utf8_len(q[0]));
            assert(spec_join_path(q).len() > 0);
        }
        assert(p =~= q);
    } else {
        lemma_join_path_split(p);
        lemma_join_path_split(q);
        let s = spec_join_path(p);
        let dp = decimal(utf8_len(p[0]));
        let dq = decimal(utf8_len(q[0]));
        lemma_decimal_digits(utf8_len(p[0]));
        lemma_decimal_digits(utf8_len(q[0]));
        let rp = if p.len() == 1 { Seq::<char>::empty() } else { seq!['/'] + spec_join_path(p.drop_first()) };
        let rq = if q.len() == 1 { Seq::<char>::empty() } else { seq!['/'] + spec_join_path(q.drop_first()) };
        assert(s =~= dp + (seq![':'] + (p[0] + rp)));
        assert(s =~= dq + (seq![':'] + (q[0] + rq)));
        if dp.len() < dq.len() {
            assert(s[dp.len() as int] == ':');
            assert(s[dp.len() as int] == dq[dp.len() as int]);
            assert(false);
        }
        if dq.len() < dp.len() {
            assert(s[dq.len() as int] == ':');
            assert(s[dq.len() as int] == dp[dq.len() as int]);
            assert(false);
        }
        assert(dp =~= s.subrange(0, dp.len() as int));
        assert(dq =~= s.subrange(0, dq.len() as int));
        lemma_decimal_injective(utf8_len(p[0]), utf8_len(q[0]));
        let after = s.subrange(dp.len() + 1int, s.len() as int);
        assert(after =~= p[0] + rp);
        assert(after =~= q[0] + rq);
        lemma_prefix_by_utf8_len(p[0], rp, q[0], rq);
        if p.len() == 1 && q.len() > 1 {
            assert(rq.len() > 0);
            assert(false);
        }
        if q.len() == 1 && p.len() > 1 {
            assert(rp.len() > 0);
            assert(false);
        }
        if p.len() > 1 {
            assert(spec_join_path(p.drop_first()) =~= rp.subrange(1, rp.len() as int));
            assert(spec_join_path(q.drop_first()) =~= rq.subrange(1, rq.len() as int));
            law_join_path_injective(p.drop_first(), q.drop_first());
        }
        assert(p =~= seq![p[0]] + p.drop_first());
        assert(q =~= seq![q[0]] + q.drop_first());
    }
}

} // verus!

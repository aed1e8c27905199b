//! SHA-256 digests, request fingerprints and lower-case hex rendering.
use vstd::prelude::*;

use sha2::{Digest, Sha256};

verus! {

/// The SHA-256 digest of a byte sequence.
pub uninterp spec fn sha256(data: Seq<u8>) -> Seq<u8>;

/// SHA-256 of `data`.
///
/// Wraps `sha2::Sha256::digest`; the result is named `sha256(data)`, a function of the input
/// alone, and is 32 bytes long (the output size of SHA-256).
#[verifier::external_body]
pub fn sha256_digest(data: &[u8]) -> (r: Vec<u8>)
    ensures
        r@ == sha256(data@),
        r@.len() == 32,
{
    Sha256::digest(data).to_vec()
}

// ---------------------------------------------------------------------------
// Hex rendering
// ---------------------------------------------------------------------------
pub open spec fn hex_digit(n: nat) -> char
    recommends
        n < 16,
{
    if n < 10 {
        (('0' as u32) + n) as char
    } else {
        (('a' as u32) + (n - 10)) as char
    }
}

/// Lower-case hex rendering: two digits per byte, high nibble first.
pub open spec fn hex_seq(bytes: Seq<u8>) -> Seq<char>
    decreases bytes.len(),
{
    if bytes.len() == 0 {
        seq![]
    } else {
        hex_seq(bytes.drop_last()).push(hex_digit((bytes.last() / 16) as nat)).push(
            hex_digit((bytes.last() % 16) as nat),
        )
    }
}

/// A lower-case hexadecimal digit.
pub open spec fn is_lower_hex_digit(c: char) -> bool {
    ('0' <= c && c <= '9') || ('a' <= c && c <= 'f')
}

/// Every character of a hex rendering is a lower-case hexadecimal digit.
pub proof fn lemma_hex_seq_digits(bytes: Seq<u8>)
    ensures
        hex_seq(bytes).len() == 2 * bytes.len(),
        forall|i: int| 0 <= i < hex_seq(bytes).len() ==> is_lower_hex_digit(#[trigger] hex_seq(bytes)[i]),
    decreases bytes.len(),
{
    if bytes.len() > 0 {
        lemma_hex_seq_digits(bytes.drop_last());
        let hi = (bytes.last() / 16) as nat;
        let lo = (bytes.last() % 16) as nat;
        assert(is_lower_hex_digit(hex_digit(hi)));
        assert(is_lower_hex_digit(hex_digit(lo)));
    }
}

fn nibble_char(n: u8) -> (c: char)
    requires
        n < 16,
    ensures
        c == hex_digit(n as nat),
{
    if n < 10 {
        (n + 48) as char
    } else {
        (n + 87) as char
    }
}

/// Renders bytes as lower-case hex.
pub fn hex_encode(bytes: &[u8]) -> (s: String)
    ensures
        s@ == hex_seq(bytes@),
        s@.len() == 2 * bytes@.len(),
{
    let mut s = String::new();
    let mut i: usize = 0;
    while i < bytes.len()
        invariant
            i <= bytes.len(),
            s@ == hex_seq(bytes@.take(i as int)),
            s@.len() == 2 * i,
        decreases bytes.len() - i,
    {
        let b = bytes[i];
        crate::text::push_char(&mut s, nibble_char(b / 16));
        crate::text::push_char(&mut s, nibble_char(b % 16));
        assert(bytes@.take(i + 1 as int).drop_last() =~= bytes@.take(i as int));
        i = i + 1;
    }
    assert(bytes@.take(bytes.len() as int) =~= bytes@);
    s
}

/// Lower-case hex of the SHA-256 digest of `data`.
pub fn sha256_hex(data: &[u8]) -> (s: String)
    ensures
        s@ == hex_seq(sha256(data@)),
        s@.len() == 64,
        forall|i: int| 0 <= i < s@.len() ==> is_lower_hex_digit(#[trigger] s@[i]),
{
    let d = sha256_digest(data);
    proof {
        lemma_hex_seq_digits(d@);
    }
    hex_encode(d.as_slice())
}

// ---------------------------------------------------------------------------
// Request fingerprints
// ---------------------------------------------------------------------------
/// Big-endian bytes of a 64-bit length.
pub open spec fn be_u64(n: u64) -> Seq<u8> {
    Seq::new(8, |i: int| ((n >> ((7 - i) * 8) as u64) & 0xff) as u8)
}

/// The domain that separates request fingerprints from other digests.
pub open spec fn fingerprint_domain() -> Seq<u8> {
    vstd::utf8::encode_utf8("ryframe/request-fingerprint/v1\0"@)
}

/// The domain that separates idempotency-key hashes from other digests.
pub open spec fn idempotency_domain() -> Seq<u8> {
    vstd::utf8::encode_utf8("ryframe/idempotency-key/v1\0"@)
}

/// Length-prefixed framing of the parts of a request.
pub open spec fn framed_parts(parts: Seq<Seq<u8>>) -> Seq<u8>
    decreases parts.len(),
{
    if parts.len() == 0 {
        seq![]
    } else {
        framed_parts(parts.drop_last()) + be_u64(parts.last().len() as u64) + parts.last()
    }
}

pub open spec fn parts_view(parts: Seq<Vec<u8>>) -> Seq<Seq<u8>> {
    parts.map_values(|p: Vec<u8>| p@)
}

/// The fingerprint of a request: SHA-256 over the domain followed by each part with its
/// big-endian 64-bit length in front.
pub open spec fn spec_request_fingerprint(parts: Seq<Seq<u8>>) -> Seq<u8> {
    sha256(fingerprint_domain() + framed_parts(parts))
}

fn append_bytes(out: &mut Vec<u8>, bytes: &[u8])
    ensures
        final(out)@ == old(out)@ + bytes@,
{
    let mut i: usize = 0;
    while i < bytes.len()
        invariant
            i <= bytes.len(),
            out@ == old(out)@ + bytes@.take(i as int),
        decreases bytes.len() - i,
    {
        out.push(bytes[i]);
        assert(old(out)@ + bytes@.take(i + 1 as int) =~= (old(out)@ + bytes@.take(i as int)).push(
            bytes@[i as int],
        ));
        i = i + 1;
    }
    assert(bytes@.take(bytes.len() as int) =~= bytes@);
}

/// Copies a byte slice into a vector.
pub fn copy_bytes(bytes: &[u8]) -> (r: Vec<u8>)
    ensures
        r@ == bytes@,
{
    let mut r: Vec<u8> = Vec::new();
    append_bytes(&mut r, bytes);
    r
}

fn append_be_u64(out: &mut Vec<u8>, n: u64)
    ensures
        final(out)@ == old(out)@ + be_u64(n),
{
    let mut i: u64 = 0;
    while i < 8
        invariant
            i <= 8,
            out@ == old(out)@ + be_u64(n).take(i as int),
        decreases 8 - i,
    {
        let b: u8 = ((n >> ((7 - i) * 8)) & 0xff) as u8;
        out.push(b);
        assert(be_u64(n)[i as int] == b);
        assert(old(out)@ + be_u64(n).take(i + 1 as int) =~= (old(out)@ + be_u64(n).take(
            i as int,
        )).push(b));
        i = i + 1;
    }
    assert(be_u64(n).take(8) =~= be_u64(n));
}

/// Hashes the parts of a request into a fingerprint that tells replays from new requests.
pub fn request_fingerprint(parts: &[Vec<u8>]) -> (r: Vec<u8>)
    ensures
        r@ == spec_request_fingerprint(parts_view(parts@)),
        r@.len() == 32,
{
    let mut message: Vec<u8> = Vec::new();
    append_bytes(&mut message, "ryframe/request-fingerprint/v1\0".as_bytes());
    let mut i: usize = 0;
    while i < parts.len()
        invariant
            i <= parts.len(),
            message@ == fingerprint_domain() + framed_parts(parts_view(parts@).take(i as int)),
        decreases parts.len() - i,
    {
        let part = &parts[i];
        append_be_u64(&mut message, part.len() as u64);
        append_bytes(&mut message, part.as_slice());
        proof {
            let pv = parts_view(parts@);
            assert(pv.take(i + 1 as int).drop_last() =~= pv.take(i as int));
            assert(pv.take(i + 1 as int).last() == part@);
            assert(fingerprint_domain() + framed_parts(pv.take(i as int)) + be_u64(
                part@.len() as u64,
            ) + part@ =~= fingerprint_domain() + framed_parts(pv.take(i + 1 as int)));
        }
        i = i + 1;
    }
    assert(parts_view(parts@).take(parts.len() as int) =~= parts_view(parts@));
    sha256_digest(message.as_slice())
}

/// SHA-256 over a domain followed by a value, without a key.
pub fn unkeyed_hash(domain: &[u8], value: &[u8]) -> (r: Vec<u8>)
    ensures
        r@ == sha256(domain@ + value@),
{
    let mut message: Vec<u8> = Vec::new();
    append_bytes(&mut message, domain);
    append_bytes(&mut message, value);
    sha256_digest(message.as_slice())
}

/// Hash of an idempotency key, kept instead of the key itself.
pub fn idempotency_key_hash(key: &str) -> (r: Vec<u8>)
    ensures
        r@ == sha256(idempotency_domain() + vstd::utf8::encode_utf8(key@)),
{
    unkeyed_hash("ryframe/idempotency-key/v1\0".as_bytes(), key.as_bytes())
}

/// Eight big-endian bytes determine the number they render.
proof fn lemma_be_u64_injective(n: u64, m: u64)
    requires
        be_u64(n) == be_u64(m),
    ensures
        n == m,
{
    assert(be_u64(n)[0] == be_u64(m)[0]);
    assert(be_u64(n)[1] == be_u64(m)[1]);
    assert(be_u64(n)[2] == be_u64(m)[2]);
    assert(be_u64(n)[3] == be_u64(m)[3]);
    assert(be_u64(n)[4] == be_u64(m)[4]);
    assert(be_u64(n)[5] == be_u64(m)[5]);
    assert(be_u64(n)[6] == be_u64(m)[6]);
    assert(be_u64(n)[7] == be_u64(m)[7]);
    let a0 = ((n >> 56u64) & 0xff) as u8;
    let b0 = ((m >> 56u64) & 0xff) as u8;
    let a1 = ((n >> 48u64) & 0xff) as u8;
    let b1 = ((m >> 48u64) & 0xff) as u8;
    let a2 = ((n >> 40u64) & 0xff) as u8;
    let b2 = ((m >> 40u64) & 0xff) as u8;
    let a3 = ((n >> 32u64) & 0xff) as u8;
    let b3 = ((m >> 32u64) & 0xff) as u8;
    let a4 = ((n >> 24u64) & 0xff) as u8;
    let b4 = ((m >> 24u64) & 0xff) as u8;
    let a5 = ((n >> 16u64) & 0xff) as u8;
    let b5 = ((m >> 16u64) & 0xff) as u8;
    let a6 = ((n >> 8u64) & 0xff) as u8;
    let b6 = ((m >> 8u64) & 0xff) as u8;
    let a7 = ((n >> 0u64) & 0xff) as u8;
    let b7 = ((m >> 0u64) & 0xff) as u8;
    assert((((7 - 0int) * 8) as u64) == 56u64);
    assert(be_u64(n)[0] == a0 && be_u64(m)[0] == b0);
    assert((((7 - 1int) * 8) as u64) == 48u64);
    assert(be_u64(n)[1] == a1 && be_u64(m)[1] == b1);
    assert((((7 - 2int) * 8) as u64) == 40u64);
    assert(be_u64(n)[2] == a2 && be_u64(m)[2] == b2);
    assert((((7 - 3int) * 8) as u64) == 32u64);
    assert(be_u64(n)[3] == a3 && be_u64(m)[3] == b3);
    assert((((7 - 4int) * 8) as u64) == 24u64);
    assert(be_u64(n)[4] == a4 && be_u64(m)[4] == b4);
    assert((((7 - 5int) * 8) as u64) == 16u64);
    assert(be_u64(n)[5] == a5 && be_u64(m)[5] == b5);
    assert((((7 - 6int) * 8) as u64) == 8u64);
    assert(be_u64(n)[6] == a6 && be_u64(m)[6] == b6);
    assert((((7 - 7int) * 8) as u64) == 0u64);
    assert(be_u64(n)[7] == a7 && be_u64(m)[7] == b7);
    assert(a0 == b0 && a1 == b1 && a2 == b2 && a3 == b3 && a4 == b4 && a5 == b5 && a6 == b6 && a7 == b7);
    assert(n == m) by (bit_vector)
        requires
            ((n >> 56u64) & 0xff) as u8 == ((m >> 56u64) & 0xff) as u8,
            ((n >> 48u64) & 0xff) as u8 == ((m >> 48u64) & 0xff) as u8,
            ((n >> 40u64) & 0xff) as u8 == ((m >> 40u64) & 0xff) as u8,
            ((n >> 32u64) & 0xff) as u8 == ((m >> 32u64) & 0xff) as u8,
            ((n >> 24u64) & 0xff) as u8 == ((m >> 24u64) & 0xff) as u8,
            ((n >> 16u64) & 0xff) as u8 == ((m >> 16u64) & 0xff) as u8,
            ((n >> 8u64) & 0xff) as u8 == ((m >> 8u64) & 0xff) as u8,
            ((n >> 0u64) & 0xff) as u8 == ((m >> 0u64) & 0xff) as u8,
    ;
}

/// The framing read from the front: the first part's length, the first part, then the rest.
proof fn lemma_framed_parts_front(parts: Seq<Seq<u8>>)
    requires
        parts.len() > 0,
    ensures
        framed_parts(parts) == be_u64(parts[0].len() as u64) + parts[0] + framed_parts(parts.drop_first()),
    decreases parts.len(),
{
    if parts.len() == 1 {
        assert(parts.drop_last() =~= Seq::<Seq<u8>>::empty());
        assert(parts.drop_first() =~= Seq::<Seq<u8>>::empty());
        assert(framed_parts(parts) =~= be_u64(parts[0].len() as u64) + parts[0] + framed_parts(parts.drop_first()));
    } else {
        let init = parts.drop_last();
        lemma_framed_parts_front(init);
        assert(init.drop_first() =~= parts.drop_first().drop_last());
        assert(init[0] == parts[0]);
        assert(parts.drop_first().last() == parts.last());
        assert(framed_parts(parts) =~= be_u64(parts[0].len() as u64) + parts[0] + framed_parts(parts.drop_first()));
    }
}

/// Length framing keeps request parts apart: different lists of parts (each shorter than
/// 2^64 bytes) are never framed into the same message, so moving bytes between parts, or
/// adding an empty part, changes what is hashed.
pub proof fn law_request_parts_are_framed_apart(p: Seq<Seq<u8>>, q: Seq<Seq<u8>>)
    requires
        forall|i: int| 0 <= i < p.len() ==> (#[trigger] p[i]).len() <= u64::MAX,
        forall|i: int| 0 <= i < q.len() ==> (#[trigger] q[i]).len() <= u64::MAX,
        fingerprint_domain() + framed_parts(p) == fingerprint_domain() + framed_parts(q),
    ensures
        p == q,
    decreases p.len(),
{
    let d = fingerprint_domain();
    assert(framed_parts(p) =~= (d + framed_parts(p)).subrange(d.len() as int, (d + framed_parts(p)).len() as int));
    assert(framed_parts(q) =~= (d + framed_parts(q)).subrange(d.len() as int, (d + framed_parts(q)).len() as int));
    let fp = framed_parts(p);
    let fq = framed_parts(q);
    if p.len() == 0 {
        if q.len() > 0 {
            lemma_framed_parts_front(q);
            assert(fq.len() >= 8);
        }
        assert(p =~= q);
    } else if q.len() == 0 {
        lemma_framed_parts_front(p);
        assert(fp.len() >= 8);
    } else {
        lemma_framed_parts_front(p);
        lemma_framed_parts_front(q);
        let lp = p[0].len() as u64;
        let lq = q[0].len() as u64;
        assert(be_u64(lp) =~= fp.subrange(0, 8));
        assert(be_u64(lq) =~= fq.subrange(0, 8));
        lemma_be_u64_injective(lp, lq);
        assert(p[0].len() == q[0].len());
        let l = p[0].len() as int;
        assert(p[0] =~= fp.subrange(8, 8 + l));
        assert(q[0] =~= fq.subrange(8, 8 + l));
        let rp = framed_parts(p.drop_first());
        let rq = framed_parts(q.drop_first());
        assert(rp =~= fp.subrange(8 + l, fp.len() as int));
        assert(rq =~= fq.subrange(8 + l, fq.len() as int));
        assert(d + rp =~= d + rq);
        law_request_parts_are_framed_apart(p.drop_first(), q.drop_first());
        assert(p =~= seq![p[0]] + p.drop_first());
        assert(q =~= seq![q[0]] + q.drop_first());
    }
}

} // verus!

//! Deterministic identifiers: chunk ids and event idempotency keys (SHA-256),
//! catalog chunk ids (BLAKE3) and content hashes (XXH3), all rendered in
//! lowercase hexadecimal.
use vstd::prelude::*;

use sha2::Digest;

use crate::text::{is_space, is_whitespace, push_char, string_of};

verus! {

/// The SHA-256 digest of `data`.
pub uninterp spec fn sha256_of(data: Seq<u8>) -> Seq<u8>;

/// The BLAKE3 hash (32 bytes) of `data`.
pub uninterp spec fn blake3_of(data: Seq<u8>) -> Seq<u8>;

/// The 64-bit XXH3 hash of `data`.
pub uninterp spec fn xxh3_of(data: Seq<u8>) -> u64;

/// Relies on `sha2::Sha256::digest`: the 32-byte SHA-256 digest of the input.
#[verifier::external_body]
fn sha256(data: &[u8]) -> (r: Vec<u8>)
    ensures
        r@ == sha256_of(data@),
        r@.len() == 32,
{
    sha2::Sha256::digest(data).to_vec()
}

/// Relies on `blake3::hash`: the 32-byte BLAKE3 hash of the input.
#[verifier::external_body]
fn blake3_hash(data: &[u8]) -> (r: Vec<u8>)
    ensures
        r@ == blake3_of(data@),
        r@.len() == 32,
{
    blake3::hash(data).as_bytes().to_vec()
}

/// Relies on `xxhash_rust::xxh3::xxh3_64`: the one-shot 64-bit XXH3 hash,
/// equal to what the streaming hasher gives for the same bytes.
#[verifier::external_body]
fn xxh3_64(data: &[u8]) -> (r: u64)
    ensures
        r == xxh3_of(data@),
{
    xxhash_rust::xxh3::xxh3_64(data)
}

/// The lowercase hexadecimal digit of `n` (below 16).
pub open spec fn hex_digit(n: int) -> char {
    if n == 0 { '0' } else if n == 1 { '1' } else if n == 2 { '2' } else if n == 3 { '3' }
    else if n == 4 { '4' } else if n == 5 { '5' } else if n == 6 { '6' } else if n == 7 { '7' }
    else if n == 8 { '8' } else if n == 9 { '9' } else if n == 10 { 'a' } else if n == 11 { 'b' }
    else if n == 12 { 'c' } else if n == 13 { 'd' } else if n == 14 { 'e' } else { 'f' }
}

/// Two lowercase hexadecimal digits per byte, high nibble first.
pub open spec fn hex_of(b: Seq<u8>) -> Seq<char>
    decreases b.len(),
{
    if b.len() == 0 {
        Seq::empty()
    } else {
        hex_of(b.drop_last()) + seq![hex_digit(b.last() as int / 16), hex_digit(b.last() as int % 16)]
    }
}

/// The decimal digits of `n`, without leading zeros.
pub open spec fn decimal_of(n: nat) -> Seq<char>
    decreases n,
{
    if n < 10 {
        seq![hex_digit(n as int)]
    } else {
        decimal_of(n / 10).push(hex_digit((n % 10) as int))
    }
}

/// The `width` low hexadecimal digits of `n`, most significant first.
pub open spec fn hex_fixed(n: nat, width: nat) -> Seq<char>
    decreases width,
{
    if width == 0 {
        Seq::empty()
    } else {
        hex_fixed(n / 16, (width - 1) as nat).push(hex_digit((n % 16) as int))
    }
}

fn digit_char(n: u8) -> (c: char)
    requires
        n < 16,
    ensures
        c == hex_digit(n as int),
{
    if n == 0 { '0' } else if n == 1 { '1' } else if n == 2 { '2' } else if n == 3 { '3' }
    else if n == 4 { '4' } else if n == 5 { '5' } else if n == 6 { '6' } else if n == 7 { '7' }
    else if n == 8 { '8' } else if n == 9 { '9' } else if n == 10 { 'a' } else if n == 11 { 'b' }
    else if n == 12 { 'c' } else if n == 13 { 'd' } else if n == 14 { 'e' } else { 'f' }
}

/// Appends the lowercase hexadecimal form of `b` to `out`.
pub fn push_hex(out: &mut String, b: &Vec<u8>)
    ensures
        final(out)@ == old(out)@ + hex_of(b@),
{
    let ghost start = out@;
    let mut i: usize = 0;
    while i < b.len()
        invariant
            i <= b@.len(),
            out@ == start + hex_of(b@.take(i as int)),
        decreases b.len() - i,
    {
        assert(b@.take(i + 1).drop_last() == b@.take(i as int));
        push_char(out, digit_char(b[i] / 16));
        push_char(out, digit_char(b[i] % 16));
        i = i + 1;
    }
    assert(b@.take(b@.len() as int) == b@);
}

/// The decimal form of `n`.
pub fn decimal(n: u128) -> (s: String)
    ensures
        s@ == decimal_of(n as nat),
    decreases n,
{
    if n < 10 {
        let mut s = String::new();
        push_char(&mut s, digit_char(n as u8));
        s
    } else {
        let mut s = decimal(n / 10);
        push_char(&mut s, digit_char((n % 10) as u8));
        s
    }
}

/// The `width` low hexadecimal digits of `n`, zero-padded.
pub fn hex_padded(n: u64, width: usize) -> (s: String)
    ensures
        s@ == hex_fixed(n as nat, width as nat),
    decreases width,
{
    if width == 0 {
        String::new()
    } else {
        let mut s = hex_padded(n / 16, width - 1);
        push_char(&mut s, digit_char((n % 16) as u8));
        s
    }
}

/// The hexadecimal digits of `n`, without leading zeros.
pub open spec fn hex_min(n: nat) -> Seq<char>
    decreases n,
{
    if n < 16 {
        seq![hex_digit(n as int)]
    } else {
        hex_min(n / 16).push(hex_digit((n % 16) as int))
    }
}

/// The lowercase hexadecimal form of `n`, without leading zeros.
pub fn hex_u64(n: u64) -> (s: String)
    ensures
        s@ == hex_min(n as nat),
    decreases n,
{
    if n < 16 {
        let mut s = String::new();
        push_char(&mut s, digit_char(n as u8));
        s
    } else {
        let mut s = hex_u64(n / 16);
        push_char(&mut s, digit_char((n % 16) as u8));
        s
    }
}

/// The little-endian bytes of a 64-bit value.
pub open spec fn le64(v: u64) -> Seq<u8> {
    be64(v).reverse()
}

fn push_le64(out: &mut Vec<u8>, v: u64)
    ensures
        final(out)@ == old(out)@ + le64(v),
{
    let ghost start = out@;
    out.push((v % 256) as u8);
    out.push((v / 0x100 % 256) as u8);
    out.push((v / 0x10000 % 256) as u8);
    out.push((v / 0x1000000 % 256) as u8);
    out.push((v / 0x100000000 % 256) as u8);
    out.push((v / 0x10000000000 % 256) as u8);
    out.push((v / 0x1000000000000 % 256) as u8);
    out.push((v / 0x100000000000000) as u8);
    assert(out@ =~= start + le64(v));
}

/// `"fp-"` followed by the hexadecimal SHA-256 of a path and its size, the
/// identity of a file where the platform offers no inode.
pub open spec fn fallback_file_uid_of(path: Seq<char>, size: u64) -> Seq<char> {
    seq!['f', 'p', '-'] + hex_of(sha256_of(vstd::utf8::encode_utf8(path) + le64(size)))
}

/// The identity of a file from its path and size.
pub fn fallback_file_uid(path: &str, size: u64) -> (id: String)
    ensures
        id@ == fallback_file_uid_of(path@, size),
{
    let mut data: Vec<u8> = Vec::new();
    push_bytes(&mut data, &utf8_bytes(path));
    push_le64(&mut data, size);
    let digest = sha256(data.as_slice());
    let mut id = String::new();
    push_char(&mut id, 'f');
    push_char(&mut id, 'p');
    push_char(&mut id, '-');
    push_hex(&mut id, &digest);
    id
}

/// The big-endian bytes of a 32-bit value.
pub open spec fn be32(v: u32) -> Seq<u8> {
    seq![(v / 0x1000000) as u8, (v / 0x10000 % 256) as u8, (v / 0x100 % 256) as u8, (v % 256) as u8]
}

/// The big-endian bytes of a 64-bit value.
pub open spec fn be64(v: u64) -> Seq<u8> {
    seq![
        (v / 0x100000000000000) as u8,
        (v / 0x1000000000000 % 256) as u8,
        (v / 0x10000000000 % 256) as u8,
        (v / 0x100000000 % 256) as u8,
        (v / 0x1000000 % 256) as u8,
        (v / 0x10000 % 256) as u8,
        (v / 0x100 % 256) as u8,
        (v % 256) as u8,
    ]
}

fn push_be32(out: &mut Vec<u8>, v: u32)
    ensures
        final(out)@ == old(out)@ + be32(v),
{
    out.push((v / 0x1000000) as u8);
    out.push((v / 0x10000 % 256) as u8);
    out.push((v / 0x100 % 256) as u8);
    out.push((v % 256) as u8);
}

fn push_be64(out: &mut Vec<u8>, v: u64)
    ensures
        final(out)@ == old(out)@ + be64(v),
{
    out.push((v / 0x100000000000000) as u8);
    out.push((v / 0x1000000000000 % 256) as u8);
    out.push((v / 0x10000000000 % 256) as u8);
    out.push((v / 0x100000000 % 256) as u8);
    out.push((v / 0x1000000 % 256) as u8);
    out.push((v / 0x10000 % 256) as u8);
    out.push((v / 0x100 % 256) as u8);
    out.push((v % 256) as u8);
}

fn push_bytes(out: &mut Vec<u8>, b: &Vec<u8>)
    ensures
        final(out)@ == old(out)@ + b@,
{
    let ghost start = out@;
    let mut i: usize = 0;
    while i < b.len()
        invariant
            i <= b@.len(),
            out@ == start + b@.take(i as int),
        decreases b.len() - i,
    {
        out.push(b[i]);
        i = i + 1;
        assert(b@.take(i as int) == b@.take(i - 1).push(b@[i - 1]));
    }
    assert(b@.take(b@.len() as int) == b@);
}

fn utf8_bytes(s: &str) -> (b: Vec<u8>)
    ensures
        b@ == vstd::utf8::encode_utf8(s@),
{
    s.as_bytes_vec()
}

/// Line endings made uniform: each CRLF pair and each lone CR becomes LF.
pub open spec fn line_feeds(s: Seq<char>) -> Seq<char>
    decreases s.len(),
{
    if s.len() == 0 {
        s
    } else if s[0] == '\r' && s.len() >= 2 && s[1] == '\n' {
        seq!['\n'] + line_feeds(s.subrange(2, s.len() as int))
    } else if s[0] == '\r' {
        seq!['\n'] + line_feeds(s.drop_first())
    } else {
        seq![s[0]] + line_feeds(s.drop_first())
    }
}

/// `s` without its trailing white space.
pub open spec fn trim_end(s: Seq<char>) -> Seq<char>
    decreases s.len(),
{
    if s.len() > 0 && is_space(s.last()) {
        trim_end(s.drop_last())
    } else {
        s
    }
}

/// The text that a chunk id is computed over.
pub open spec fn normalize(s: Seq<char>) -> Seq<char> {
    trim_end(line_feeds(s))
}

/// Line endings made uniform and trailing white space removed.
pub fn normalize_text(text: &str) -> (r: String)
    ensures
        r@ == normalize(text@),
{
    let cs = crate::text::chars_of(text);
    let mut out: Vec<char> = Vec::new();
    let mut i: usize = 0;
    assert(cs@.subrange(0, cs@.len() as int) == text@);
    assert(out@ + line_feeds(text@) == line_feeds(text@));
    while i < cs.len()
        invariant
            cs@ == text@,
            i <= cs@.len(),
            out@ + line_feeds(cs@.subrange(i as int, cs@.len() as int)) == line_feeds(text@),
        decreases cs.len() - i,
    {
        let ghost rest = cs@.subrange(i as int, cs@.len() as int);
        if cs[i] == '\r' && i + 1 < cs.len() && cs[i + 1] == '\n' {
            assert(rest.subrange(2, rest.len() as int) == cs@.subrange(i + 2, cs@.len() as int));
            out.push('\n');
            i = i + 2;
        } else if cs[i] == '\r' {
            assert(rest.drop_first() == cs@.subrange(i + 1, cs@.len() as int));
            out.push('\n');
            i = i + 1;
        } else {
            assert(rest.drop_first() == cs@.subrange(i + 1, cs@.len() as int));
            out.push(cs[i]);
            i = i + 1;
        }
        assert(out@ + line_feeds(cs@.subrange(i as int, cs@.len() as int)) == line_feeds(text@));
    }
    assert(cs@.subrange(i as int, cs@.len() as int) =~= Seq::<char>::empty());
    assert(out@ == line_feeds(text@));
    let mut n = out.len();
    assert(out@.take(n as int) == out@);
    while n > 0 && is_whitespace(out[n - 1])
        invariant
            n <= out@.len(),
            trim_end(out@.take(n as int)) == normalize(text@),
            out@ == line_feeds(text@),
        decreases n,
    {
        assert(out@.take(n as int).drop_last() == out@.take(n - 1));
        n = n - 1;
    }
    assert(out@.subrange(0, n as int) == out@.take(n as int));
    string_of(&out, 0, n)
}

/// The bytes a chunk id is the digest of.
pub open spec fn chunk_preimage(
    file_uid: Seq<char>,
    content_hash: Seq<char>,
    page_no: u32,
    start: u64,
    end: u64,
    text: Seq<char>,
) -> Seq<u8> {
    vstd::utf8::encode_utf8(file_uid) + vstd::utf8::encode_utf8(content_hash) + be32(page_no)
        + be64(start) + be64(end) + vstd::utf8::encode_utf8(normalize(text))
}

/// `"ch:"` followed by the hexadecimal SHA-256 of the chunk's preimage.
pub open spec fn chunk_id_of(
    file_uid: Seq<char>,
    content_hash: Seq<char>,
    page_no: u32,
    start: u64,
    end: u64,
    text: Seq<char>,
) -> Seq<char> {
    seq!['c', 'h', ':'] + hex_of(sha256_of(chunk_preimage(file_uid, content_hash, page_no, start, end, text)))
}

/// The deterministic id of a chunk: it depends on the text only through its
/// normalized form.
pub fn make_chunk_id(
    file_uid: &str,
    content_hash: &str,
    page_no: u32,
    start: usize,
    end: usize,
    text: &str,
) -> (id: String)
    ensures
        id@ == chunk_id_of(file_uid@, content_hash@, page_no, start as u64, end as u64, text@),
{
    let normalized = normalize_text(text);
    let mut data: Vec<u8> = Vec::new();
    push_bytes(&mut data, &utf8_bytes(file_uid));
    push_bytes(&mut data, &utf8_bytes(content_hash));
    push_be32(&mut data, page_no);
    push_be64(&mut data, start as u64);
    push_be64(&mut data, end as u64);
    push_bytes(&mut data, &utf8_bytes(normalized.as_str()));
    let digest = sha256(data.as_slice());
    let mut id = String::new();
    push_char(&mut id, 'c');
    push_char(&mut id, 'h');
    push_char(&mut id, ':');
    push_hex(&mut id, &digest);
    id
}

/// `"sha256:"` followed by the hexadecimal SHA-256 of a canonical payload.
pub open spec fn idempotency_key_of(payload: Seq<u8>) -> Seq<char> {
    seq!['s', 'h', 'a', '2', '5', '6', ':'] + hex_of(sha256_of(payload))
}

/// The idempotency key of an event whose canonical serialization is `payload`.
pub fn idempotency_key(payload: &Vec<u8>) -> (key: String)
    ensures
        key@ == idempotency_key_of(payload@),
{
    let digest = sha256(payload.as_slice());
    let mut key = String::new();
    push_char(&mut key, 's');
    push_char(&mut key, 'h');
    push_char(&mut key, 'a');
    push_char(&mut key, '2');
    push_char(&mut key, '5');
    push_char(&mut key, '6');
    push_char(&mut key, ':');
    push_hex(&mut key, &digest);
    key
}

/// The content hash of a file's bytes: its XXH3 in 16 hexadecimal digits.
pub open spec fn content_hash_of(bytes: Seq<u8>) -> Seq<char> {
    hex_fixed(xxh3_of(bytes) as nat, 16)
}

/// The content hash of a file's bytes.
pub fn content_hash(bytes: &Vec<u8>) -> (h: String)
    ensures
        h@ == content_hash_of(bytes@),
{
    let v = xxh3_64(bytes.as_slice());
    hex_padded(v, 16)
}

/// The id of a catalog chunk: the hexadecimal BLAKE3 of the source path
/// followed by the decimal start and end offsets.
pub open spec fn catalog_chunk_id_of(path: Seq<char>, start: u64, end: u64) -> Seq<char> {
    hex_of(
        blake3_of(
            vstd::utf8::encode_utf8(path) + vstd::utf8::encode_utf8(decimal_of(start as nat))
                + vstd::utf8::encode_utf8(decimal_of(end as nat)),
        ),
    )
}

/// The id of the catalog chunk of `path` covering `start..end`.
pub fn catalog_chunk_id(path: &str, start: u64, end: u64) -> (id: String)
    ensures
        id@ == catalog_chunk_id_of(path@, start, end),
{
    let mut data: Vec<u8> = Vec::new();
    push_bytes(&mut data, &utf8_bytes(path));
    let s = decimal(start as u128);
    let e = decimal(end as u128);
    push_bytes(&mut data, &utf8_bytes(s.as_str()));
    push_bytes(&mut data, &utf8_bytes(e.as_str()));
    let digest = blake3_hash(data.as_slice());
    let mut id = String::new();
    push_hex(&mut id, &digest);
    id
}

/// A chunk's id depends on its text only through the normalized text.
pub proof fn lemma_chunk_id_normalized(
    file_uid: Seq<char>,
    content_hash: Seq<char>,
    page_no: u32,
    start: u64,
    end: u64,
    a: Seq<char>,
    b: Seq<char>,
)
    requires
        normalize(a) == normalize(b),
    ensures
        chunk_id_of(file_uid, content_hash, page_no, start, end, a) == chunk_id_of(
            file_uid,
            content_hash,
            page_no,
            start,
            end,
            b,
        ),
{
}

/// Texts whose line endings agree once CRLF and CR are read as LF get the same
/// chunk id.
pub proof fn lemma_chunk_id_line_endings(
    file_uid: Seq<char>,
    content_hash: Seq<char>,
    page_no: u32,
    start: u64,
    end: u64,
    a: Seq<char>,
    b: Seq<char>,
)
    requires
        line_feeds(a) == line_feeds(b),
    ensures
        chunk_id_of(file_uid, content_hash, page_no, start, end, a) == chunk_id_of(
            file_uid,
            content_hash,
            page_no,
            start,
            end,
            b,
        ),
{
}

proof fn lemma_trim_end_spaces(s: Seq<char>, w: Seq<char>)
    requires
        forall|i: int| 0 <= i < w.len() ==> is_space(#[trigger] w[i]),
    ensures
        trim_end(s + w) == trim_end(s),
    decreases w.len(),
{
    if w.len() > 0 {
        assert((s + w).drop_last() == s + w.drop_last());
        assert(is_space(w[w.len() - 1]));
        lemma_trim_end_spaces(s, w.drop_last());
    } else {
        assert(s + w == s);
    }
}

proof fn lemma_line_feeds_spaces(w: Seq<char>)
    requires
        forall|i: int| 0 <= i < w.len() ==> is_space(#[trigger] w[i]),
    ensures
        forall|i: int| 0 <= i < line_feeds(w).len() ==> is_space(#[trigger] line_feeds(w)[i]),
    decreases w.len(),
{
    if w.len() > 0 {
        assert(is_space(w[0]));
        assert(is_space('\n'));
        if w[0] == '\r' && w.len() >= 2 && w[1] == '\n' {
            let r = w.subrange(2, w.len() as int);
            assert forall|i: int| 0 <= i < r.len() implies is_space(#[trigger] r[i]) by {
                assert(r[i] == w[i + 2]);
            }
            lemma_line_feeds_spaces(r);
            let lw = line_feeds(w);
            assert(lw == seq!['\n'] + line_feeds(r));
            assert forall|i: int| 0 <= i < lw.len() implies is_space(#[trigger] lw[i]) by {
                if i > 0 {
                    assert(lw[i] == line_feeds(r)[i - 1]);
                }
            }
        } else {
            let r = w.drop_first();
            assert forall|i: int| 0 <= i < r.len() implies is_space(#[trigger] r[i]) by {
                assert(r[i] == w[i + 1]);
            }
            lemma_line_feeds_spaces(r);
            let lw = line_feeds(w);
            let x = if w[0] == '\r' { '\n' } else { w[0] };
            assert(lw == seq![x] + line_feeds(r));
            assert forall|i: int| 0 <= i < lw.len() implies is_space(#[trigger] lw[i]) by {
                if i > 0 {
                    assert(lw[i] == line_feeds(r)[i - 1]);
                }
            }
        }
    }
}

proof fn lemma_line_feeds_append(s: Seq<char>, w: Seq<char>)
    requires
        s.len() == 0 || s.last() != '\r' || w.len() == 0 || w[0] != '\n',
    ensures
        line_feeds(s + w) == line_feeds(s) + line_feeds(w),
    decreases s.len(),
{
    if s.len() == 0 {
        assert(s + w == w);
    } else if s[0] == '\r' && s.len() >= 2 && s[1] == '\n' {
        assert((s + w).subrange(2, (s + w).len() as int) == s.subrange(2, s.len() as int) + w);
        lemma_line_feeds_append(s.subrange(2, s.len() as int), w);
    } else {
        assert((s + w).drop_first() == s.drop_first() + w);
        if s.len() == 1 {
            assert(s.drop_first() + w == w);
        }
        lemma_line_feeds_append(s.drop_first(), w);
    }
}

/// Trailing white space does not change a chunk's id.
pub proof fn lemma_chunk_id_trailing_space(
    file_uid: Seq<char>,
    content_hash: Seq<char>,
    page_no: u32,
    start: u64,
    end: u64,
    a: Seq<char>,
    w: Seq<char>,
)
    requires
        forall|i: int| 0 <= i < w.len() ==> is_space(#[trigger] w[i]),
    ensures
        chunk_id_of(file_uid, content_hash, page_no, start, end, a + w) == chunk_id_of(
            file_uid,
            content_hash,
            page_no,
            start,
            end,
            a,
        ),
{
    if a.len() > 0 && a.last() == '\r' && w.len() > 0 && w[0] == '\n' {
        let w1 = w.drop_first();
        let a1 = a + seq!['\n'];
        assert(a + w == a1 + w1);
        assert forall|i: int| 0 <= i < w1.len() implies is_space(#[trigger] w1[i]) by {
            assert(w1[i] == w[i + 1]);
        }
        lemma_line_feeds_append(a1, w1);
        lemma_line_feeds_crlf_end(a);
        lemma_line_feeds_spaces(w1);
        lemma_trim_end_spaces(line_feeds(a), line_feeds(w1));
    } else {
        lemma_line_feeds_append(a, w);
        lemma_line_feeds_spaces(w);
        lemma_trim_end_spaces(line_feeds(a), line_feeds(w));
    }
}

proof fn lemma_line_feeds_crlf_end(a: Seq<char>)
    requires
        a.len() > 0,
        a.last() == '\r',
    ensures
        line_feeds(a + seq!['\n']) == line_feeds(a),
    decreases a.len(),
{
    let s = a + seq!['\n'];
    if a.len() == 1 {
        assert(s.subrange(2, s.len() as int) =~= Seq::<char>::empty());
        assert(a.drop_first() =~= Seq::<char>::empty());
    } else if a[0] == '\r' && a[1] == '\n' {
        assert(s.subrange(2, s.len() as int) == a.subrange(2, a.len() as int) + seq!['\n']);
        lemma_line_feeds_crlf_end(a.subrange(2, a.len() as int));
    } else {
        assert(s.drop_first() == a.drop_first() + seq!['\n']);
        lemma_line_feeds_crlf_end(a.drop_first());
    }
}

} // verus!

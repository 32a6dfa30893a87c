//! Session cache: fingerprints of blocks already returned under a session,
//! the filtering of later results against them, and the cache file's layout.

use vstd::prelude::*;
use vstd::utf8::encode_utf8;
use vstd::wrapping::u128_specs;
use crate::blocks::{CodeBlock, filter_marked, keep_marked, lemma_filter_origin, marked_in};

verus! {

/// Starting value of the 128-bit FNV-1a hash.
pub const FNV_OFFSET: u128 = 0x6c62272e07bb014262b821756295c58d;

/// Multiplier of the 128-bit FNV-1a hash.
pub const FNV_PRIME: u128 = 0x0000000001000000000000000000013B;

/// 128-bit FNV-1a of `bytes`, continued from `h`.
pub open spec fn fnv_spec(h: u128, bytes: Seq<u8>) -> u128
    decreases bytes.len(),
{
    if bytes.len() == 0 {
        h
    } else {
        u128_specs::wrapping_mul(fnv_spec(h, bytes.drop_last()) ^ (bytes.last() as u128), FNV_PRIME)
    }
}

fn fnv_extend(h: u128, bytes: &[u8]) -> (r: u128)
    ensures
        r == fnv_spec(h, bytes@),
{
    let mut acc = h;
    let mut i: usize = 0;
    while i < bytes.len()
        invariant
            i <= bytes@.len(),
            acc == fnv_spec(h, bytes@.subrange(0, i as int)),
        decreases bytes@.len() - i,
    {
        assert(bytes@.subrange(0, i + 1).drop_last() =~= bytes@.subrange(0, i as int));
        acc = (acc ^ (bytes[i] as u128)).wrapping_mul(FNV_PRIME);
        i = i + 1;
    }
    assert(bytes@.subrange(0, bytes@.len() as int) =~= bytes@);
    acc
}

/// The `w` low bytes of `n`, little-endian.
pub open spec fn le_bytes(n: int, w: nat) -> Seq<u8> {
    Seq::new(w, |i: int| ((n / pow256(i)) % 256) as u8)
}

/// 256 to the power `i`.
pub open spec fn pow256(i: int) -> int
    decreases i,
{
    if i <= 0 { 1 } else { 256 * pow256(i - 1) }
}

/// The bytes a block's fingerprint is taken over: its file path, a zero byte,
/// its start line, a zero byte, its end line, a zero byte, then its code
/// (paths and code in UTF-8, lines as eight little-endian bytes).
pub open spec fn fingerprint_bytes(b: CodeBlock) -> Seq<u8> {
    encode_utf8(b.file@) + seq![0u8] + le_bytes(b.lines.0 as int, 8) + seq![0u8] + le_bytes(
        b.lines.1 as int,
        8,
    ) + seq![0u8] + encode_utf8(b.code@)
}

/// A block's fingerprint.
pub open spec fn fp(b: CodeBlock) -> u128 {
    fnv_spec(FNV_OFFSET, fingerprint_bytes(b))
}

/// Pushes the `w` low bytes of `n`, little-endian.
fn push_le(out: &mut Vec<u8>, n: u128, w: usize)
    ensures
        final(out)@ == old(out)@ + le_bytes(n as int, w as nat),
{
    let mut i: usize = 0;
    let mut x: u128 = n;
    let ghost base = old(out)@;
    while i < w
        invariant
            i <= w,
            x as int == n as int / pow256(i as int),
            out@ == base + le_bytes(n as int, w as nat).subrange(0, i as int),
        decreases w - i,
    {
        proof {
            lemma_pow256_pos(i as int);
            lemma_div_step(n as int, i as int);
        }
        out.push((x % 256) as u8);
        x = x / 256;
        i = i + 1;
        assert(out@ =~= base + le_bytes(n as int, w as nat).subrange(0, i as int));
    }
    assert(le_bytes(n as int, w as nat).subrange(0, w as int) =~= le_bytes(n as int, w as nat));
}

proof fn lemma_pow256_pos(i: int)
    ensures
        pow256(i) > 0,
    decreases i,
{
    if i > 0 {
        lemma_pow256_pos(i - 1);
    }
}

proof fn lemma_div_step(n: int, i: int)
    requires
        n >= 0,
        i >= 0,
    ensures
        n / pow256(i) / 256 == n / pow256(i + 1),
{
    lemma_pow256_pos(i);
    assert(pow256(i + 1) == 256 * pow256(i));
    vstd::arithmetic::div_mod::lemma_div_denominator(n, pow256(i), 256);
    assert(pow256(i) * 256 == pow256(i + 1)) by (nonlinear_arith)
        requires pow256(i + 1) == 256 * pow256(i);
}

/// The fingerprint of a block: 128-bit FNV-1a over its file path, lines and code.
pub fn fingerprint(b: &CodeBlock) -> (r: u128)
    ensures
        r == fp(*b),
{
    let mut bytes: Vec<u8> = Vec::new();
    let fb = b.file.as_str().as_bytes();
    let mut i: usize = 0;
    while i < fb.len()
        invariant
            i <= fb@.len(),
            bytes@ == fb@.subrange(0, i as int),
        decreases fb@.len() - i,
    {
        bytes.push(fb[i]);
        i = i + 1;
        assert(bytes@ =~= fb@.subrange(0, i as int));
    }
    assert(fb@.subrange(0, fb@.len() as int) =~= fb@);
    bytes.push(0u8);
    push_le(&mut bytes, b.lines.0 as u128, 8);
    bytes.push(0u8);
    push_le(&mut bytes, b.lines.1 as u128, 8);
    bytes.push(0u8);
    let h = fnv_extend(FNV_OFFSET, bytes.as_slice());
    let r = fnv_extend(h, b.code.as_str().as_bytes());
    proof {
        lemma_fnv_concat(FNV_OFFSET, bytes@, encode_utf8(b.code@));
        assert(bytes@ + encode_utf8(b.code@) =~= fingerprint_bytes(*b));
    }
    r
}

proof fn lemma_fnv_concat(h: u128, a: Seq<u8>, b: Seq<u8>)
    ensures
        fnv_spec(fnv_spec(h, a), b) == fnv_spec(h, a + b),
    decreases b.len(),
{
    if b.len() > 0 {
        lemma_fnv_concat(h, a, b.drop_last());
        assert((a + b).drop_last() =~= a + b.drop_last());
    } else {
        assert(a + b =~= a);
    }
}

/// Marks of the blocks of `s` whose fingerprint is not in `cache`.
pub open spec fn fresh_marks(s: Seq<CodeBlock>, cache: Seq<u128>) -> Seq<bool> {
    Seq::new(s.len(), |i: int| !cache.contains(fp(s[i])))
}

/// The fingerprints of `s`, in order.
pub open spec fn fps(s: Seq<CodeBlock>) -> Seq<u128> {
    s.map_values(|b: CodeBlock| fp(b))
}

fn cached(cache: &Vec<u128>, f: u128) -> (r: bool)
    ensures
        r == cache@.contains(f),
{
    let mut i: usize = 0;
    while i < cache.len()
        invariant
            i <= cache@.len(),
            forall|q: int| 0 <= q < i ==> cache@[q] != f,
        decreases cache@.len() - i,
    {
        if cache[i] == f {
            return true;
        }
        i = i + 1;
    }
    false
}

/// Drops the blocks already returned in the session (their fingerprint is in
/// `cache`); returns the others, in order, and how many were dropped.
pub fn filter_cached(blocks: Vec<CodeBlock>, cache: &Vec<u128>) -> (r: (Vec<CodeBlock>, usize))
    ensures
        r.0@ == filter_marked(blocks@, fresh_marks(blocks@, cache@), blocks@.len() as nat),
        r.1 == blocks@.len() - r.0@.len(),
{
    let n = blocks.len();
    let mut keep: Vec<bool> = Vec::new();
    let mut i: usize = 0;
    while i < n
        invariant
            n == blocks@.len(),
            i <= n,
            keep@.len() == i,
            forall|k: int| 0 <= k < i ==> keep@[k] == !cache@.contains(fp(blocks@[k])),
        decreases n - i,
    {
        let f = fingerprint(&blocks[i]);
        keep.push(!cached(cache, f));
        i = i + 1;
    }
    assert(keep@ =~= fresh_marks(blocks@, cache@));
    let ghost orig = blocks@;
    let kept = keep_marked(blocks, &keep);
    proof {
        lemma_filter_origin(orig, keep@, n as nat);
    }
    let dropped = n - kept.len();
    (kept, dropped)
}

/// Appends the fingerprints of the returned blocks to the session cache.
pub fn record_returned(cache: &mut Vec<u128>, blocks: &Vec<CodeBlock>)
    ensures
        final(cache)@ == old(cache)@ + fps(blocks@),
{
    let ghost base = old(cache)@;
    let mut i: usize = 0;
    while i < blocks.len()
        invariant
            i <= blocks@.len(),
            cache@ == base + fps(blocks@.subrange(0, i as int)),
        decreases blocks@.len() - i,
    {
        let f = fingerprint(&blocks[i]);
        cache.push(f);
        i = i + 1;
        assert(cache@ =~= base + fps(blocks@.subrange(0, i as int)));
    }
    assert(blocks@.subrange(0, blocks@.len() as int) =~= blocks@);
}

/// Two runs under one session return disjoint results: after the first run's
/// blocks are recorded, no block of the second run has the fingerprint of a
/// block of the first.
pub proof fn lemma_session_runs_disjoint(first: Seq<CodeBlock>, second: Seq<CodeBlock>, cache: Seq<u128>)
    ensures
        ({
            let r1 = filter_marked(first, fresh_marks(first, cache), first.len());
            let c2 = cache + fps(r1);
            let r2 = filter_marked(second, fresh_marks(second, c2), second.len());
            forall|x: int, y: int|
                0 <= x < r1.len() && 0 <= y < r2.len() ==> fp(#[trigger] r1[x]) != fp(#[trigger] r2[y])
        }),
{
    let r1 = filter_marked(first, fresh_marks(first, cache), first.len());
    let c2 = cache + fps(r1);
    let m2 = fresh_marks(second, c2);
    let r2 = filter_marked(second, m2, second.len());
    lemma_filter_origin(first, fresh_marks(first, cache), first.len());
    lemma_filter_origin(second, m2, second.len());
    assert forall|x: int, y: int| 0 <= x < r1.len() && 0 <= y < r2.len() implies fp(#[trigger] r1[x]) != fp(
        #[trigger] r2[y],
    ) by {
        assert(marked_in(second, m2, second.len() as int, r2[y]));
        let j = choose|j: int| 0 <= j < second.len() && m2[j] && second[j] == r2[y];
        assert(c2[cache.len() + x] == fp(r1[x]));
        if fp(r1[x]) == fp(r2[y]) {
            assert(c2.contains(fp(second[j])));
        }
    }
}

/// No two blocks of `s` share a fingerprint.
pub open spec fn distinct_fps(s: Seq<CodeBlock>) -> bool {
    forall|i: int, j: int| 0 <= i < s.len() && 0 <= j < s.len() && i != j ==> fp(#[trigger] s[i]) != fp(#[trigger] s[j])
}

proof fn lemma_fps_index(s: Seq<CodeBlock>, k: int, i: int)
    requires
        0 <= k <= s.len(),
        0 <= i < s.len(),
        distinct_fps(s),
    ensures
        fps(s.subrange(0, k)).contains(fp(s[i])) <==> i < k,
{
    let f = fps(s.subrange(0, k));
    if i < k {
        assert(f[i] == fp(s[i]));
    } else {
        if f.contains(fp(s[i])) {
            let j = choose|j: int| 0 <= j < f.len() && f[j] == fp(s[i]);
            assert(f[j] == fp(s[j]));
        }
    }
}

proof fn lemma_filter_suffix(s: Seq<CodeBlock>, k: int, n: int)
    requires
        0 <= k <= s.len(),
        0 <= n <= s.len(),
        distinct_fps(s),
    ensures
        filter_marked(s, fresh_marks(s, fps(s.subrange(0, k))), n as nat) == (if n <= k {
            Seq::<CodeBlock>::empty()
        } else {
            s.subrange(k, n)
        }),
    decreases n,
{
    if n > 0 {
        lemma_filter_suffix(s, k, n - 1);
        lemma_fps_index(s, k, n - 1);
        if n - 1 >= k {
            assert(s.subrange(k, n) =~= (if n - 1 <= k { Seq::<CodeBlock>::empty() } else { s.subrange(k, n - 1) }).push(
                s[n - 1],
            ));
        }
    }
}

proof fn lemma_filter_all_fresh(s: Seq<CodeBlock>, n: int)
    requires
        0 <= n <= s.len(),
    ensures
        filter_marked(s, fresh_marks(s, Seq::empty()), n as nat) == s.subrange(0, n),
    decreases n,
{
    if n > 0 {
        lemma_filter_all_fresh(s, n - 1);
        assert(s.subrange(0, n) =~= s.subrange(0, n - 1).push(s[n - 1]));
    } else {
        assert(s.subrange(0, 0) =~= Seq::<CodeBlock>::empty());
    }
}

/// Running one query twice under a new session: the first run sees an empty
/// cache and may return any prefix `s[..k]` of the ranked blocks `s` (as the
/// budgets allow); with those recorded, the second run sees exactly the
/// rest `s[k..]`, so it returns blocks disjoint from the first, and the two
/// results together form a prefix of `s`, the ranking without a session.
pub proof fn lemma_session_repeat(s: Seq<CodeBlock>, k: int)
    requires
        0 <= k <= s.len(),
        distinct_fps(s),
    ensures
        filter_marked(s, fresh_marks(s, Seq::empty()), s.len()) == s,
        filter_marked(s, fresh_marks(s, Seq::empty() + fps(s.subrange(0, k))), s.len()) == s.subrange(k, s.len() as int),
{
    lemma_filter_all_fresh(s, s.len() as int);
    assert(s.subrange(0, s.len() as int) =~= s);
    assert(Seq::<u128>::empty() + fps(s.subrange(0, k)) =~= fps(s.subrange(0, k)));
    lemma_filter_suffix(s, k, s.len() as int);
    if s.len() as int <= k {
        assert(s.subrange(k, s.len() as int) =~= Seq::<CodeBlock>::empty());
    }
}

/// How a session ID acts on the cache: empty disables it, `new` starts a
/// fresh one, any other names a cache to reuse.
pub enum SessionMode {
    Disabled,
    Fresh,
    Named,
}

/// The mode of a session ID.
pub open spec fn session_mode_spec(id: Seq<char>) -> SessionMode {
    if id.len() == 0 {
        SessionMode::Disabled
    } else if id == "new"@ {
        SessionMode::Fresh
    } else {
        SessionMode::Named
    }
}

/// How the session ID `id` acts on the cache.
pub fn session_mode(id: &str) -> (r: SessionMode)
    ensures
        r == session_mode_spec(id@),
{
    if id.unicode_len() == 0 {
        SessionMode::Disabled
    } else if crate::text::str_eq(id, "new") {
        SessionMode::Fresh
    } else {
        SessionMode::Named
    }
}

/// The value of little-endian bytes.
pub open spec fn le_value(s: Seq<u8>) -> int
    decreases s.len(),
{
    if s.len() == 0 {
        0
    } else {
        s[0] + 256 * le_value(s.drop_first())
    }
}

proof fn lemma_le_value_bound(s: Seq<u8>)
    ensures
        0 <= le_value(s) < pow256(s.len() as int),
    decreases s.len(),
{
    if s.len() > 0 {
        lemma_le_value_bound(s.drop_first());
        let r = le_value(s.drop_first());
        let p = pow256(s.len() - 1);
        assert(pow256(s.len() as int) == 256 * p);
        assert(s[0] + 256 * r < 256 * p) by (nonlinear_arith)
            requires
                0 <= s[0] < 256,
                0 <= r < p,
        ;
    }
}

proof fn lemma_le_round_trip(s: Seq<u8>)
    ensures
        le_bytes(le_value(s), s.len()) == s,
    decreases s.len(),
{
    if s.len() > 0 {
        let rest = s.drop_first();
        lemma_le_round_trip(rest);
        lemma_le_value_bound(rest);
        let v = le_value(s);
        let r = le_value(rest);
        assert(v == s[0] + 256 * r);
        assert(v % 256 == s[0] as int && v / 256 == r) by {
            vstd::arithmetic::div_mod::lemma_fundamental_div_mod_converse(v, 256, r, s[0] as int);
        }
        assert forall|i: int| 0 <= i < s.len() implies #[trigger] le_bytes(v, s.len())[i] == s[i] by {
            if i == 0 {
                assert(pow256(0) == 1);
            } else {
                lemma_pow256_pos(i - 1);
                assert(pow256(i) == 256 * pow256(i - 1));
                vstd::arithmetic::div_mod::lemma_div_denominator(v, 256, pow256(i - 1));
                assert(v / pow256(i) == r / pow256(i - 1));
                assert(le_bytes(r, rest.len())[i - 1] == rest[i - 1]);
            }
        }
        assert(le_bytes(v, s.len()) =~= s);
    }
}

/// The magic bytes that open a session file, `PRBSESS1`.
pub open spec fn magic() -> Seq<u8> {
    seq![0x50u8, 0x52u8, 0x42u8, 0x53u8, 0x45u8, 0x53u8, 0x53u8, 0x31u8]
}

/// The file format version.
pub const SESSION_VERSION: u32 = 1;

/// Fingerprints as 16 little-endian bytes each.
pub open spec fn fps_bytes(fps: Seq<u128>) -> Seq<u8>
    decreases fps.len(),
{
    if fps.len() == 0 {
        Seq::empty()
    } else {
        fps_bytes(fps.drop_last()) + le_bytes(fps.last() as int, 16)
    }
}

/// A session file: the magic, the version in 4 bytes, the session ID ended
/// by a zero byte, the creation time in 8 bytes, then the fingerprints.
pub open spec fn session_layout(id: Seq<u8>, created: u64, fps: Seq<u128>) -> Seq<u8> {
    magic() + le_bytes(SESSION_VERSION as int, 4) + id + seq![0u8] + le_bytes(created as int, 8) + fps_bytes(fps)
}

/// The contents of a session file.
pub struct SessionFile {
    pub session_id: Vec<u8>,
    pub created: u64,
    pub fingerprints: Vec<u128>,
}

/// Why a session file could not be read.
#[derive(Clone, Copy, Debug, PartialEq, Eq, Structural)]
pub enum SessionError {
    Corrupt,
}

/// Writes a session file.
pub fn encode_session(id: &Vec<u8>, created: u64, fps: &Vec<u128>) -> (r: Vec<u8>)
    requires
        !id@.contains(0u8),
    ensures
        r@ == session_layout(id@, created, fps@),
{
    let mut out: Vec<u8> = vec![0x50u8, 0x52u8, 0x42u8, 0x53u8, 0x45u8, 0x53u8, 0x53u8, 0x31u8];
    assert(out@ =~= magic());
    push_le(&mut out, SESSION_VERSION as u128, 4);
    let ghost head = out@;
    let mut i: usize = 0;
    while i < id.len()
        invariant
            i <= id@.len(),
            out@ == head + id@.subrange(0, i as int),
        decreases id@.len() - i,
    {
        out.push(id[i]);
        i = i + 1;
        assert(out@ =~= head + id@.subrange(0, i as int));
    }
    assert(id@.subrange(0, id@.len() as int) =~= id@);
    out.push(0u8);
    push_le(&mut out, created as u128, 8);
    let ghost pre = out@;
    let mut k: usize = 0;
    while k < fps.len()
        invariant
            k <= fps@.len(),
            out@ == pre + fps_bytes(fps@.subrange(0, k as int)),
        decreases fps@.len() - k,
    {
        assert(fps@.subrange(0, k + 1).drop_last() =~= fps@.subrange(0, k as int));
        push_le(&mut out, fps[k], 16);
        k = k + 1;
        assert(out@ =~= pre + fps_bytes(fps@.subrange(0, k as int)));
    }
    assert(fps@.subrange(0, fps@.len() as int) =~= fps@);
    assert(out@ =~= session_layout(id@, created, fps@));
    out
}

proof fn lemma_pow256_values()
    ensures
        pow256(8) == 0x1_0000_0000_0000_0000,
        pow256(16) == 0x1_0000_0000_0000_0000_0000_0000_0000_0000,
{
    assert(pow256(0) == 0x1);
    assert(pow256(1) == 0x100);
    assert(pow256(2) == 0x10000);
    assert(pow256(3) == 0x1000000);
    assert(pow256(4) == 0x100000000);
    assert(pow256(5) == 0x10000000000);
    assert(pow256(6) == 0x1000000000000);
    assert(pow256(7) == 0x100000000000000);
    assert(pow256(8) == 0x10000000000000000);
    assert(pow256(9) == 0x1000000000000000000);
    assert(pow256(10) == 0x100000000000000000000);
    assert(pow256(11) == 0x10000000000000000000000);
    assert(pow256(12) == 0x1000000000000000000000000);
    assert(pow256(13) == 0x100000000000000000000000000);
    assert(pow256(14) == 0x10000000000000000000000000000);
    assert(pow256(15) == 0x1000000000000000000000000000000);
    assert(pow256(16) == 0x100000000000000000000000000000000);
}

proof fn lemma_pow256_mono(a: int, b: int)
    requires
        0 <= a <= b,
    ensures
        pow256(a) <= pow256(b),
    decreases b - a,
{
    if a < b {
        lemma_pow256_mono(a, b - 1);
        lemma_pow256_pos(b - 1);
    }
}

/// The value of the `w` little-endian bytes of `b` at `off`.
fn read_le(b: &Vec<u8>, off: usize, w: usize) -> (r: u128)
    requires
        off + w <= b@.len(),
        w <= 16,
    ensures
        r as int == le_value(b@.subrange(off as int, off + w)),
{
    let len = b.len();
    let mut v: u128 = 0;
    let mut k: usize = w;
    assert(b@.subrange(off + w, off + w).len() == 0);
    while k > 0
        invariant
            len == b@.len(),
            off + w <= b@.len(),
            w <= 16,
            k <= w,
            v as int == le_value(b@.subrange(off + k, off + w)),
        decreases k,
    {
        let ghost seg = b@.subrange(off + k - 1, off + w);
        assert(seg.drop_first() =~= b@.subrange(off + k, off + w));
        proof {
            lemma_le_value_bound(seg);
            lemma_pow256_mono(seg.len() as int, 16);
            lemma_pow256_values();
        }
        assert(le_value(seg) == b@[off + k - 1] + 256 * v);
        v = v * 256 + b[off + k - 1] as u128;
        k = k - 1;
    }
    v
}

/// The first zero byte of `b` at or after `i`.
pub open spec fn first_zero(b: Seq<u8>, i: int) -> Option<int>
    decreases b.len() - i,
{
    if i < 0 || i >= b.len() {
        None
    } else if b[i] == 0 {
        Some(i)
    } else {
        first_zero(b, i + 1)
    }
}

/// `b` is a well-formed session file: the magic and version, a zero byte
/// ending the ID, eight bytes of time, and whole 16-byte fingerprints.
pub open spec fn session_ok(b: Seq<u8>) -> bool {
    &&& b.len() >= 12
    &&& b.subrange(0, 8) == magic()
    &&& b.subrange(8, 12) == le_bytes(SESSION_VERSION as int, 4)
    &&& first_zero(b, 12) matches Some(p) && p + 9 <= b.len() && (b.len() - p - 9) % 16 == 0
}

proof fn lemma_first_zero_before(b: Seq<u8>, i: int, p: int)
    requires
        0 <= i,
        first_zero(b, i) == Some(p),
    ensures
        i <= p < b.len(),
        b[p] == 0,
        forall|q: int| i <= q < p ==> b[q] != 0,
    decreases b.len() - i,
{
    if b[i] != 0 {
        lemma_first_zero_before(b, i + 1, p);
    }
}

/// Reads a session file: `Corrupt` unless it is well formed; otherwise its
/// ID, creation time and fingerprints, which written back give the same bytes.
pub fn decode_session(b: &Vec<u8>) -> (r: Result<SessionFile, SessionError>)
    ensures
        r is Ok <==> session_ok(b@),
        r matches Ok(f) ==> session_layout(f.session_id@, f.created, f.fingerprints@) == b@ && !f.session_id@.contains(0u8),
{
    let n = b.len();
    if n < 12 {
        return Err(SessionError::Corrupt);
    }
    let head: Vec<u8> = vec![0x50u8, 0x52u8, 0x42u8, 0x53u8, 0x45u8, 0x53u8, 0x53u8, 0x31u8, 1u8, 0u8, 0u8, 0u8];
    proof {
        assert(pow256(0) == 1);
        assert(pow256(1) == 256);
        assert(pow256(2) == 65536);
        assert(pow256(3) == 16777216);
        assert(head@.subrange(0, 8) =~= magic());
        assert(head@.subrange(8, 12) =~= le_bytes(SESSION_VERSION as int, 4));
    }
    let mut i: usize = 0;
    while i < 12
        invariant
            i <= 12 <= n == b@.len(),
            head@.len() == 12,
            head@.subrange(0, 8) == magic(),
            head@.subrange(8, 12) == le_bytes(SESSION_VERSION as int, 4),
            forall|q: int| 0 <= q < i ==> b@[q] == head@[q],
        decreases 12 - i,
    {
        if b[i] != head[i] {
            assert(b@.subrange(0, 12) != head@.subrange(0, 12)) by {
                assert(b@.subrange(0, 12)[i as int] != head@.subrange(0, 12)[i as int]);
            }
            proof {
                if b@.subrange(0, 8) == magic() && b@.subrange(8, 12) == le_bytes(SESSION_VERSION as int, 4) {
                    assert(b@.subrange(0, 12) =~= b@.subrange(0, 8) + b@.subrange(8, 12));
                    assert(head@.subrange(0, 12) =~= head@.subrange(0, 8) + head@.subrange(8, 12));
                }
            }
            return Err(SessionError::Corrupt);
        }
        i = i + 1;
    }
    assert(b@.subrange(0, 8) =~= magic());
    assert(b@.subrange(8, 12) =~= le_bytes(SESSION_VERSION as int, 4));
    let mut p: usize = 12;
    while p < n && b[p] != 0
        invariant
            12 <= p <= n == b@.len(),
            first_zero(b@, 12) == first_zero(b@, p as int),
        decreases n - p,
    {
        p = p + 1;
    }
    if p == n {
        return Err(SessionError::Corrupt);
    }
    proof {
        lemma_first_zero_before(b@, 12, p as int);
    }
    if n - p < 9 || (n - p - 9) % 16 != 0 {
        return Err(SessionError::Corrupt);
    }
    let mut id: Vec<u8> = Vec::new();
    let mut k: usize = 12;
    while k < p
        invariant
            12 <= k <= p < n == b@.len(),
            id@ == b@.subrange(12, k as int),
        decreases p - k,
    {
        id.push(b[k]);
        k = k + 1;
        assert(id@ =~= b@.subrange(12, k as int));
    }
    let created = read_le(b, p + 1, 8);
    proof {
        lemma_le_value_bound(b@.subrange(p + 1, p + 9));
        lemma_pow256_values();
        lemma_le_round_trip(b@.subrange(p + 1, p + 9));
    }
    let count = (n - p - 9) / 16;
    let base = p + 9;
    let mut fps: Vec<u128> = Vec::new();
    let mut j: usize = 0;
    while j < count
        invariant
            base == p + 9,
            count * 16 == n - base,
            base <= n == b@.len(),
            j <= count,
            fps_bytes(fps@) == b@.subrange(base as int, base + 16 * j),
        decreases count - j,
    {
        let v = read_le(b, base + 16 * j, 16);
        proof {
            lemma_le_round_trip(b@.subrange(base + 16 * j, base + 16 * j + 16));
        }
        let ghost before = fps@;
        fps.push(v);
        assert(fps@.drop_last() =~= before);
        assert(b@.subrange(base as int, base + 16 * (j + 1)) =~= b@.subrange(base as int, base + 16 * j) + b@.subrange(
            base + 16 * j,
            base + 16 * j + 16,
        ));
        j = j + 1;
    }
    let f = SessionFile { session_id: id, created: created as u64, fingerprints: fps };
    proof {
        assert(!f.session_id@.contains(0u8)) by {
            if f.session_id@.contains(0u8) {
                let q = choose|q: int| 0 <= q < f.session_id@.len() && f.session_id@[q] == 0u8;
                assert(b@[12 + q] == 0);
            }
        }
        assert(b@ =~= b@.subrange(0, 8) + b@.subrange(8, 12) + b@.subrange(12, p as int) + seq![0u8] + b@.subrange(
            p + 1,
            p + 9,
        ) + b@.subrange(base as int, n as int));
    }
    Ok(f)
}

/// Reading back a written session file gives the same ID, time and fingerprints.
pub proof fn lemma_session_round_trip(id: Seq<u8>, created: u64, fps: Seq<u128>)
    requires
        !id.contains(0u8),
    ensures
        session_ok(session_layout(id, created, fps)),
{
    let b = session_layout(id, created, fps);
    let p: int = 12 + id.len() as int;
    assert(b.subrange(0, 8) =~= magic());
    assert(b.subrange(8, 12) =~= le_bytes(SESSION_VERSION as int, 4));
    assert(b[p] == 0);
    assert forall|q: int| 12 <= q < p implies b[q] != 0 by {
        assert(b[q] == id[q - 12]);
    }
    lemma_first_zero_at(b, 12, p);
    lemma_fps_len(fps);
    assert((b.len() - p - 9) == 16 * fps.len());
    vstd::arithmetic::div_mod::lemma_mod_multiples_basic(fps.len() as int, 16);
}

proof fn lemma_first_zero_at(b: Seq<u8>, i: int, p: int)
    requires
        0 <= i <= p < b.len(),
        b[p] == 0,
        forall|q: int| i <= q < p ==> b[q] != 0,
    ensures
        first_zero(b, i) == Some(p),
    decreases p - i,
{
    if i < p {
        lemma_first_zero_at(b, i + 1, p);
    }
}

proof fn lemma_fps_len(fps: Seq<u128>)
    ensures
        fps_bytes(fps).len() == 16 * fps.len(),
    decreases fps.len(),
{
    if fps.len() > 0 {
        lemma_fps_len(fps.drop_last());
    }
}

} // verus!


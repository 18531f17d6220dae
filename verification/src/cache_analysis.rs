//! Simple Cache forensic analyzer: graded observations over a parsed entry.
//!
//! Every finding is self-validating: it recomputes a value the format itself
//! stored (a CRC-32, a SHA-256) or compares two timestamps the format itself
//! recorded. Each is an observation ("consistent with"), never a conclusion.

use vstd::prelude::*;
use sha2::Digest;
use crate::cache_entry::CacheEntry;
use crate::report::{Category, Severity};
use crate::text::{decimal, hex32, push_decimal, push_hex32, push_str, string_from_chars};

verus! {

/// A graded anomaly observed in a Simple Cache entry.
#[derive(Debug, Clone, PartialEq, Eq)]
pub enum CacheAnomalyKind {
    /// The stream-1 body trailer recorded a CRC-32 that disagrees with the
    /// CRC-32 recomputed over the stored body. Consistent with the body having
    /// been edited without recomputing its trailer, or with corruption.
    BodyCrc32Mismatch { stored: u32, computed: u32 },
    /// The stream-0 trailer recorded a SHA-256 of the key that disagrees with
    /// the SHA-256 recomputed over the stored key bytes.
    KeySha256Mismatch,
    /// The response time precedes the request time: impossible for a real
    /// fetch, consistent with an edited timestamp.
    ResponseBeforeRequest { request_micros: u64, response_micros: u64 },
}

/// The severity of each kind: integrity violations are high, a timeline
/// contradiction medium.
pub open spec fn cache_severity(k: CacheAnomalyKind) -> Severity {
    match k {
        CacheAnomalyKind::BodyCrc32Mismatch { .. } => Severity::High,
        CacheAnomalyKind::KeySha256Mismatch => Severity::High,
        CacheAnomalyKind::ResponseBeforeRequest { .. } => Severity::Medium,
    }
}

/// The analytical lens of each kind.
pub open spec fn cache_category(k: CacheAnomalyKind) -> Category {
    match k {
        CacheAnomalyKind::BodyCrc32Mismatch { .. } => Category::Integrity,
        CacheAnomalyKind::KeySha256Mismatch => Category::Integrity,
        CacheAnomalyKind::ResponseBeforeRequest { .. } => Category::History,
    }
}

/// The stable machine-readable code of each kind.
pub open spec fn cache_code(k: CacheAnomalyKind) -> Seq<char> {
    match k {
        CacheAnomalyKind::BodyCrc32Mismatch { .. } => "CACHE-BODY-CRC-MISMATCH"@,
        CacheAnomalyKind::KeySha256Mismatch => "CACHE-KEY-SHA256-MISMATCH"@,
        CacheAnomalyKind::ResponseBeforeRequest { .. } => "CACHE-TIME-RESPONSE-BEFORE-REQUEST"@,
    }
}

/// The human-readable note of each kind, naming the values involved.
pub open spec fn cache_note(k: CacheAnomalyKind) -> Seq<char> {
    match k {
        CacheAnomalyKind::BodyCrc32Mismatch { stored, computed } =>
            "response body CRC-32 mismatch: trailer recorded "@ + hex32(stored) + ", recomputed "@
            + hex32(computed)
            + " \u{2014} consistent with the body having been edited after storage"@,
        CacheAnomalyKind::KeySha256Mismatch =>
            "key SHA-256 mismatch: the stream-0 trailer's key hash disagrees with the SHA-256 recomputed over the stored key \u{2014} consistent with the key having been edited"@,
        CacheAnomalyKind::ResponseBeforeRequest { request_micros, response_micros } =>
            "response time ("@ + decimal(response_micros as nat) + " \u{b5}s) precedes request time ("@
            + decimal(request_micros as nat)
            + " \u{b5}s) \u{2014} impossible for a real fetch, consistent with an edited timestamp"@,
    }
}

impl CacheAnomalyKind {
    /// Severity: the single source of truth.
    pub fn severity(&self) -> (s: Severity)
        ensures
            s == cache_severity(*self),
    {
        match self {
            CacheAnomalyKind::BodyCrc32Mismatch { .. } => Severity::High,
            CacheAnomalyKind::KeySha256Mismatch => Severity::High,
            CacheAnomalyKind::ResponseBeforeRequest { .. } => Severity::Medium,
        }
    }

    /// Analytical lens.
    pub fn category(&self) -> (c: Category)
        ensures
            c == cache_category(*self),
    {
        match self {
            CacheAnomalyKind::BodyCrc32Mismatch { .. } => Category::Integrity,
            CacheAnomalyKind::KeySha256Mismatch => Category::Integrity,
            CacheAnomalyKind::ResponseBeforeRequest { .. } => Category::History,
        }
    }

    /// Stable machine-readable code (a published contract, never reused).
    pub fn code(&self) -> (c: &'static str)
        ensures
            c@ == cache_code(*self),
    {
        match self {
            CacheAnomalyKind::BodyCrc32Mismatch { .. } => "CACHE-BODY-CRC-MISMATCH",
            CacheAnomalyKind::KeySha256Mismatch => "CACHE-KEY-SHA256-MISMATCH",
            CacheAnomalyKind::ResponseBeforeRequest { .. } => "CACHE-TIME-RESPONSE-BEFORE-REQUEST",
        }
    }

    /// Human-readable note (an observation, not a conclusion).
    pub fn note(&self) -> (n: String)
        ensures
            n@ == cache_note(*self),
    {
        let mut out: Vec<char> = Vec::new();
        match self {
            CacheAnomalyKind::BodyCrc32Mismatch { stored, computed } => {
                push_str(&mut out, "response body CRC-32 mismatch: trailer recorded ");
                push_hex32(&mut out, *stored);
                push_str(&mut out, ", recomputed ");
                push_hex32(&mut out, *computed);
                push_str(
                    &mut out,
                    " \u{2014} consistent with the body having been edited after storage",
                );
            },
            CacheAnomalyKind::KeySha256Mismatch => {
                push_str(
                    &mut out,
                    "key SHA-256 mismatch: the stream-0 trailer's key hash disagrees with the SHA-256 recomputed over the stored key \u{2014} consistent with the key having been edited",
                );
            },
            CacheAnomalyKind::ResponseBeforeRequest { request_micros, response_micros } => {
                push_str(&mut out, "response time (");
                push_decimal(&mut out, *response_micros);
                push_str(&mut out, " \u{b5}s) precedes request time (");
                push_decimal(&mut out, *request_micros);
                push_str(
                    &mut out,
                    " \u{b5}s) \u{2014} impossible for a real fetch, consistent with an edited timestamp",
                );
            },
        }
        assert(out@ =~= cache_note(*self));
        string_from_chars(&out)
    }
}

/// A graded finding: a [`CacheAnomalyKind`] plus its derived
/// severity, code and note.
#[derive(Debug, Clone)]
pub struct CacheAnomaly {
    pub kind: CacheAnomalyKind,
    severity: Severity,
    code: &'static str,
    note: String,
}

impl CacheAnomaly {
    /// The finding's kind (its `kind` field).
    pub closed spec fn finding_kind(self) -> CacheAnomalyKind {
        self.kind
    }

    /// The severity recorded when the finding was made.
    pub closed spec fn recorded_severity(self) -> Severity {
        self.severity
    }

    /// The code recorded when the finding was made.
    pub closed spec fn recorded_code(self) -> Seq<char> {
        self.code@
    }

    /// The note recorded when the finding was made.
    pub closed spec fn recorded_note(self) -> Seq<char> {
        self.note@
    }

    /// A finding whose recorded severity, code and note are its kind's.
    pub open spec fn graded(self) -> bool {
        &&& self.recorded_severity() == cache_severity(self.finding_kind())
        &&& self.recorded_code() == cache_code(self.finding_kind())
        &&& self.recorded_note() == cache_note(self.finding_kind())
    }

    /// Grade `kind`: derive its severity, code and note once.
    pub fn new(kind: CacheAnomalyKind) -> (a: Self)
        ensures
            a.finding_kind() == kind,
            a.graded(),
    {
        let severity = kind.severity();
        let code = kind.code();
        let note = kind.note();
        CacheAnomaly { kind, severity, code, note }
    }

    /// The recorded severity.
    pub fn severity(&self) -> (s: Severity)
        ensures
            s == self.recorded_severity(),
    {
        self.severity
    }

    /// The recorded code.
    pub fn code(&self) -> (c: &'static str)
        ensures
            c@ == self.recorded_code(),
    {
        self.code
    }

    /// The recorded note.
    pub fn note(&self) -> (n: String)
        ensures
            n@ == self.recorded_note(),
    {
        self.note.clone()
    }

    /// The analytical lens of the finding's kind.
    pub fn category(&self) -> (c: Category)
        ensures
            c == cache_category(self.finding_kind()),
    {
        self.kind.category()
    }
}

// ── Digests (crc32fast, sha2) ───────────────────────────────────────────────

/// One bit step of the reflected CRC-32 register: shift right, and fold in
/// the reflected IEEE polynomial `0xEDB88320` when a one bit falls out.
pub open spec fn crc32_shift(r: u32) -> u32 {
    if r & 1 == 1 {
        (r >> 1) ^ 0xEDB8_8320u32
    } else {
        r >> 1
    }
}

/// `n` bit steps of the register.
pub open spec fn crc32_steps(r: u32, n: nat) -> u32
    decreases n,
{
    if n == 0 {
        r
    } else {
        crc32_steps(crc32_shift(r), (n - 1) as nat)
    }
}

/// The register after folding in the bytes `bytes`, least significant bit
/// first, from the register `r`.
pub open spec fn crc32_update(r: u32, bytes: Seq<u8>) -> u32
    decreases bytes.len(),
{
    if bytes.len() == 0 {
        r
    } else {
        crc32_update(crc32_steps(r ^ (bytes[0] as u32), 8), bytes.drop_first())
    }
}

/// The CRC-32 (IEEE 802.3, the checksum of zlib and PNG) of `bytes`: the
/// register starts at all ones, takes in each byte, and is inverted at the
/// end.
pub open spec fn crc32_ieee(bytes: Seq<u8>) -> u32 {
    crc32_update(0xFFFF_FFFFu32, bytes) ^ 0xFFFF_FFFFu32
}

/// The SHA-256 digest of `bytes`, as `sha2` computes it.
pub uninterp spec fn sha256(bytes: Seq<u8>) -> Seq<u8>;

/// `crc32fast::hash`: the CRC-32 (IEEE) of `buf`, as `crc32_ieee` states it;
/// never panics.
pub assume_specification[ crc32fast::hash ](buf: &[u8]) -> (r: u32)
    ensures
        r == crc32_ieee(buf@),
;

/// `sha2::Sha256::digest`, as a 32-byte array: the SHA-256 of `data`
/// (named by `sha256`).
#[verifier::external_body]
fn sha256_digest(data: &[u8]) -> (d: [u8; 32])
    ensures
        d@ == sha256(data@),
{
    sha2::Sha256::digest(data).into()
}

// ── Analysis ────────────────────────────────────────────────────────────────

/// The kinds of anomaly an entry exhibits, given the CRC-32 recomputed over
/// its body and the SHA-256 recomputed over its key: a stored body CRC-32
/// that differs from the recomputed one, a stored key SHA-256 that differs
/// from the recomputed one, and a response time earlier than the request
/// time, in that order.
pub open spec fn cache_findings(e: CacheEntry, crc: u32, digest: Seq<u8>) -> Seq<CacheAnomalyKind> {
    let a = match e.body_crc32 {
        Some(stored) => if crc != stored {
            seq![CacheAnomalyKind::BodyCrc32Mismatch { stored, computed: crc }]
        } else {
            Seq::empty()
        },
        None => Seq::empty(),
    };
    let b = match e.key_sha256 {
        Some(stored) => if digest != stored@ {
            seq![CacheAnomalyKind::KeySha256Mismatch]
        } else {
            Seq::empty()
        },
        None => Seq::empty(),
    };
    let c = match (e.request_time_webkit_micros, e.response_time_webkit_micros) {
        (Some(req), Some(resp)) => if resp < req {
            seq![CacheAnomalyKind::ResponseBeforeRequest { request_micros: req, response_micros: resp }]
        } else {
            Seq::empty()
        },
        _ => Seq::empty(),
    };
    a + b + c
}

/// Whether `out` is exactly the graded findings `kinds`, in order.
pub open spec fn graded_as(out: Seq<CacheAnomaly>, kinds: Seq<CacheAnomalyKind>) -> bool {
    &&& out.len() == kinds.len()
    &&& forall|i: int| 0 <= i < out.len() ==> (#[trigger] out[i]).finding_kind() == kinds[i] && out[i].graded()
}

/// Whether two 32-byte digests are equal.
fn digests_equal(a: &[u8; 32], b: &[u8; 32]) -> (r: bool)
    ensures
        r == (a@ == b@),
{
    let mut i: usize = 0;
    while i < 32
        invariant
            i <= 32,
            a@.len() == 32,
            b@.len() == 32,
            forall|k: int| 0 <= k < i ==> a@[k] == b@[k],
        decreases 32 - i,
    {
        if a[i] != b[i] {
            return false;
        }
        i = i + 1;
    }
    assert(a@ =~= b@);
    true
}

/// Grade an entry against the digests recomputed from it: the CRC-32 of its
/// body and the SHA-256 of its key bytes.
pub fn grade_entry(entry: &CacheEntry, computed_crc32: u32, computed_key_sha256: &[u8; 32]) -> (out:
    Vec<CacheAnomaly>)
    ensures
        graded_as(out@, cache_findings(*entry, computed_crc32, computed_key_sha256@)),
{
    let ghost kinds = cache_findings(*entry, computed_crc32, computed_key_sha256@);
    let mut out: Vec<CacheAnomaly> = Vec::new();
    if let Some(stored) = entry.body_crc32 {
        if computed_crc32 != stored {
            out.push(
                CacheAnomaly::new(
                    CacheAnomalyKind::BodyCrc32Mismatch { stored, computed: computed_crc32 },
                ),
            );
        }
    }
    if let Some(stored) = &entry.key_sha256 {
        if !digests_equal(computed_key_sha256, stored) {
            out.push(CacheAnomaly::new(CacheAnomalyKind::KeySha256Mismatch));
        }
    }
    if let (Some(req), Some(resp)) = (
        entry.request_time_webkit_micros,
        entry.response_time_webkit_micros,
    ) {
        if resp < req {
            out.push(
                CacheAnomaly::new(
                    CacheAnomalyKind::ResponseBeforeRequest {
                        request_micros: req,
                        response_micros: resp,
                    },
                ),
            );
        }
    }
    assert(graded_as(out@, kinds));
    out
}

/// Grade a single parsed Simple Cache entry, returning every anomaly it
/// exhibits. The body's CRC-32 is recomputed when the entry stores one, the
/// key's SHA-256 when the entry stores one. Clean entries return an empty
/// vector.
pub fn analyze(entry: &CacheEntry) -> (out: Vec<CacheAnomaly>)
    ensures
        graded_as(
            out@,
            cache_findings(
                *entry,
                crc32_ieee(entry.body@),
                sha256(vstd::utf8::encode_utf8(entry.key@)),
            ),
        ),
{
    let crc = if entry.body_crc32.is_some() {
        crc32fast::hash(entry.body.as_slice())
    } else {
        0
    };
    let digest = if entry.key_sha256.is_some() {
        sha256_digest(entry.key.as_str().as_bytes())
    } else {
        [0u8; 32]
    };
    let out = grade_entry(entry, crc, &digest);
    assert(cache_findings(*entry, crc, digest@) == cache_findings(
        *entry,
        crc32_ieee(entry.body@),
        sha256(vstd::utf8::encode_utf8(entry.key@)),
    ));
    out
}


// ── Laws ────────────────────────────────────────────────────────────────────

/// Whether an entry agrees with itself: a stored body CRC-32 equals the
/// recomputed one, a stored key SHA-256 equals the recomputed one, and a
/// response (when both times are recorded) does not precede its request.
pub open spec fn entry_consistent(e: CacheEntry, crc: u32, digest: Seq<u8>) -> bool {
    &&& match e.body_crc32 {
        Some(stored) => stored == crc,
        None => true,
    }
    &&& match e.key_sha256 {
        Some(stored) => stored@ == digest,
        None => true,
    }
    &&& match (e.request_time_webkit_micros, e.response_time_webkit_micros) {
        (Some(req), Some(resp)) => req <= resp,
        _ => true,
    }
}

/// Clean entries are true negatives: an entry exhibits no anomaly exactly
/// when it agrees with the values recomputed from it. In particular an entry
/// that carries no CRC-32, no key SHA-256 and no pair of times has nothing to
/// contradict.
pub proof fn lemma_clean_entry_has_no_findings(e: CacheEntry, crc: u32, digest: Seq<u8>)
    ensures
        cache_findings(e, crc, digest).len() == 0 <==> entry_consistent(e, crc, digest),
{
}

/// Codes are never shared: two kinds with the same code are the same kind of
/// anomaly.
pub proof fn lemma_cache_codes_distinct(a: CacheAnomalyKind, b: CacheAnomalyKind)
    ensures
        cache_code(a) == cache_code(b) ==> (a is BodyCrc32Mismatch <==> b is BodyCrc32Mismatch) && (
        a is KeySha256Mismatch <==> b is KeySha256Mismatch) && (a is ResponseBeforeRequest
            <==> b is ResponseBeforeRequest),
{
    reveal_strlit("CACHE-BODY-CRC-MISMATCH");
    reveal_strlit("CACHE-KEY-SHA256-MISMATCH");
    reveal_strlit("CACHE-TIME-RESPONSE-BEFORE-REQUEST");
    assert("CACHE-BODY-CRC-MISMATCH"@.len() == 23);
    assert("CACHE-KEY-SHA256-MISMATCH"@.len() == 25);
    assert("CACHE-TIME-RESPONSE-BEFORE-REQUEST"@.len() == 34);
}

// ── The CRC-32 catches every one-byte edit ──────────────────────────────────

/// A register step is linear over XOR.
proof fn lemma_crc32_shift_linear(x: u32, y: u32)
    ensures
        crc32_shift(x) ^ crc32_shift(y) == crc32_shift(x ^ y),
        crc32_shift(x) == 0 ==> x == 0,
{
    assert(((if x & 1 == 1 { (x >> 1) ^ 0xEDB8_8320u32 } else { x >> 1 }) ^ (if y & 1 == 1 { (y
        >> 1) ^ 0xEDB8_8320u32 } else { y >> 1 })) == (if (x ^ y) & 1 == 1 { ((x ^ y) >> 1)
        ^ 0xEDB8_8320u32 } else { (x ^ y) >> 1 })) by (bit_vector);
    assert((if x & 1 == 1 { (x >> 1) ^ 0xEDB8_8320u32 } else { x >> 1 }) == 0 ==> x == 0)
        by (bit_vector);
}

/// Register steps are linear over XOR and lose nothing.
proof fn lemma_crc32_steps_linear(x: u32, y: u32, n: nat)
    ensures
        crc32_steps(x, n) ^ crc32_steps(y, n) == crc32_steps(x ^ y, n),
        crc32_steps(x, n) == 0 ==> x == 0,
    decreases n,
{
    if n > 0 {
        lemma_crc32_shift_linear(x, y);
        lemma_crc32_steps_linear(crc32_shift(x), crc32_shift(y), (n - 1) as nat);
    }
}

/// Two different registers stay different through the same bytes.
proof fn lemma_crc32_update_injective(r1: u32, r2: u32, bytes: Seq<u8>)
    requires
        r1 != r2,
    ensures
        crc32_update(r1, bytes) != crc32_update(r2, bytes),
    decreases bytes.len(),
{
    if bytes.len() > 0 {
        let b = bytes[0] as u32;
        let x = r1 ^ b;
        let y = r2 ^ b;
        assert(x ^ y != 0) by (bit_vector)
            requires
                x == r1 ^ b,
                y == r2 ^ b,
                r1 != r2,
        ;
        lemma_crc32_steps_linear(x, y, 8);
        lemma_crc32_steps_linear(x ^ y, 0, 8);
        assert(crc32_steps(x, 8) != crc32_steps(y, 8)) by {
            if crc32_steps(x, 8) == crc32_steps(y, 8) {
                let u = crc32_steps(x, 8);
                assert(u ^ u == 0) by (bit_vector);
            }
        }
        lemma_crc32_update_injective(crc32_steps(x, 8), crc32_steps(y, 8), bytes.drop_first());
    }
}

/// Folding in `a + b` is folding in `a`, then `b`.
proof fn lemma_crc32_update_append(r: u32, a: Seq<u8>, b: Seq<u8>)
    ensures
        crc32_update(r, a + b) == crc32_update(crc32_update(r, a), b),
    decreases a.len(),
{
    if a.len() > 0 {
        assert((a + b).drop_first() =~= a.drop_first() + b);
        assert((a + b)[0] == a[0]);
        lemma_crc32_update_append(crc32_steps(r ^ (a[0] as u32), 8), a.drop_first(), b);
    }
}

/// The CRC-32 catches every one-byte edit: changing any bits of any one
/// byte of `s` changes its CRC-32.
pub proof fn lemma_crc32_detects_a_byte_edit(s: Seq<u8>, k: int, m: u8)
    requires
        0 <= k < s.len(),
        m != 0,
    ensures
        crc32_ieee(s.update(k, s[k] ^ m)) != crc32_ieee(s),
{
    let t = s.update(k, s[k] ^ m);
    let pre = s.take(k);
    let post = s.skip(k + 1);
    assert(s =~= pre + (seq![s[k]] + post));
    assert(t =~= pre + (seq![t[k]] + post));
    lemma_crc32_update_append(0xFFFF_FFFFu32, pre, seq![s[k]] + post);
    lemma_crc32_update_append(0xFFFF_FFFFu32, pre, seq![t[k]] + post);
    let r = crc32_update(0xFFFF_FFFFu32, pre);
    let a = s[k];
    let c = t[k];
    assert(c == a ^ m);
    assert((seq![a] + post).drop_first() =~= post);
    assert((seq![c] + post).drop_first() =~= post);
    let x = r ^ (a as u32);
    let y = r ^ (c as u32);
    assert(x ^ y != 0) by (bit_vector)
        requires
            x == r ^ (a as u32),
            y == r ^ (c as u32),
            c == a ^ m,
            m != 0,
    ;
    lemma_crc32_steps_linear(x, y, 8);
    lemma_crc32_steps_linear(x ^ y, 0, 8);
    assert(crc32_steps(x, 8) != crc32_steps(y, 8)) by {
        if crc32_steps(x, 8) == crc32_steps(y, 8) {
            let u = crc32_steps(x, 8);
            assert(u ^ u == 0) by (bit_vector);
        }
    }
    lemma_crc32_update_injective(crc32_steps(y, 8), crc32_steps(x, 8), post);
    let p = crc32_update(0xFFFF_FFFFu32, t);
    let q = crc32_update(0xFFFF_FFFFu32, s);
    assert(p != q);
    assert(p ^ 0xFFFF_FFFFu32 != q ^ 0xFFFF_FFFFu32) by (bit_vector)
        requires
            p != q,
    ;
}

/// A body edited in one byte after its CRC-32 was stored is caught: when the
/// entry's stored CRC-32 is that of `original` and its body is `original`
/// with one byte changed, its first finding is a body CRC-32 mismatch naming
/// both values.
pub proof fn lemma_body_edit_is_caught(original: Seq<u8>, e: CacheEntry, k: int, m: u8, digest: Seq<u8>)
    requires
        0 <= k < original.len(),
        m != 0,
        e.body_crc32 == Some(crc32_ieee(original)),
        e.body@ == original.update(k, original[k] ^ m),
    ensures
        cache_findings(e, crc32_ieee(e.body@), digest).len() > 0,
        cache_findings(e, crc32_ieee(e.body@), digest)[0] == (CacheAnomalyKind::BodyCrc32Mismatch {
            stored: crc32_ieee(original),
            computed: crc32_ieee(e.body@),
        }),
{
    lemma_crc32_detects_a_byte_edit(original, k, m);
}

} // verus!

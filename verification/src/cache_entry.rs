//! Simple Cache `_0` entry-file reader.
//!
//! Layout:
//! ```text
//! [SimpleFileHeader 24B] [key] [stream 1 body] [SimpleFileEOF]
//!                        [stream 0 HttpResponseInfo pickle] [key SHA-256?] [SimpleFileEOF]
//! ```
//! The body is delimited by the first `FINAL_MAGIC` trailer after the key; the
//! `HttpResponseInfo` pickle by the second, whose `stream_size` excludes the
//! optional 32-byte key SHA-256 that follows the pickle.

use vstd::prelude::*;
use vstd::slice::slice_subrange;
use vstd::slice::slice_to_vec;
use crate::bytes::{le_or_zero, le_value};
use crate::cache_error::CacheError;
use crate::text::{lossy_string, string_chars, string_from_chars, trim, trim_range, utf8_text, is_white_space, is_whitespace_char};

verus! {

// ── Format facts (from forensicnomicon-core) ────────────────────────────────

/// The Simple Cache layout facts this reader uses.
pub struct CacheLayout {
    pub header_len: usize,
    pub header_magic_offset: usize,
    pub header_version_offset: usize,
    pub header_key_length_offset: usize,
    pub header_key_hash_offset: usize,
    pub initial_magic: u64,
    pub final_magic: u64,
    pub eof_len: usize,
    pub eof_flags_offset: usize,
    pub eof_data_crc32_offset: usize,
    pub eof_stream_size_offset: usize,
}

/// The entry-header magic `SimpleFileHeader::initial_magic_number`.
pub open spec fn initial_magic() -> nat {
    0xfcfb_6d1b_a772_5c30
}

/// The trailer magic `SimpleFileEOF::final_magic_number`.
pub open spec fn final_magic() -> nat {
    0xf4fa_6f45_970d_41d8
}

/// The constants of `forensicnomicon_core::chromium_simple_cache` that lay out
/// the entry header and the EOF trailer, gathered in one value; the contract
/// restates the values that module defines.
#[verifier::external_body]
fn cache_layout() -> (l: CacheLayout)
    ensures
        l.header_len == 24 && l.header_magic_offset == 0 && l.header_version_offset == 8,
        l.header_key_length_offset == 12 && l.header_key_hash_offset == 16,
        l.initial_magic == initial_magic() && l.final_magic == final_magic(),
        l.eof_len == 24 && l.eof_flags_offset == 8 && l.eof_data_crc32_offset == 12,
        l.eof_stream_size_offset == 16,
{
    CacheLayout {
        header_len: forensicnomicon_core::chromium_simple_cache::HEADER_LEN,
        header_magic_offset: forensicnomicon_core::chromium_simple_cache::HEADER_MAGIC_OFFSET,
        header_version_offset: forensicnomicon_core::chromium_simple_cache::HEADER_VERSION_OFFSET,
        header_key_length_offset: forensicnomicon_core::chromium_simple_cache::HEADER_KEY_LENGTH_OFFSET,
        header_key_hash_offset: forensicnomicon_core::chromium_simple_cache::HEADER_KEY_HASH_OFFSET,
        initial_magic: forensicnomicon_core::chromium_simple_cache::INITIAL_MAGIC,
        final_magic: forensicnomicon_core::chromium_simple_cache::FINAL_MAGIC,
        eof_len: forensicnomicon_core::chromium_simple_cache::EOF_LEN,
        eof_flags_offset: forensicnomicon_core::chromium_simple_cache::EOF_FLAGS_OFFSET,
        eof_data_crc32_offset: forensicnomicon_core::chromium_simple_cache::EOF_DATA_CRC32_OFFSET,
        eof_stream_size_offset: forensicnomicon_core::chromium_simple_cache::EOF_STREAM_SIZE_OFFSET,
    }
}

/// `has_crc32`: whether a trailer's `flags` word sets `FLAG_HAS_CRC32` (bit 0).
pub assume_specification[ forensicnomicon_core::chromium_simple_cache::has_crc32 ](flags: u32) -> (r: bool)
    ensures
        r == (flags & 1 != 0),
;

/// `has_key_sha256`: whether a trailer's `flags` word sets
/// `FLAG_HAS_KEY_SHA256` (bit 1).
pub assume_specification[ forensicnomicon_core::chromium_simple_cache::has_key_sha256 ](flags: u32) -> (r: bool)
    ensures
        r == (flags & 2 != 0),
;


// ── Trailer scan ────────────────────────────────────────────────────────────

/// The offsets of the `SimpleFileEOF` trailers found by scanning `b` from `i`:
/// at each offset where a whole 24-byte trailer fits, a little-endian
/// `FINAL_MAGIC` starts a trailer (and the scan resumes after it); otherwise
/// the scan moves on one byte.
pub open spec fn eofs_from(b: Seq<u8>, i: int) -> Seq<int>
    decreases b.len() - i,
{
    if i < 0 || i + 24 > b.len() {
        Seq::empty()
    } else if le_value(b.subrange(i, i + 8)) == final_magic() {
        seq![i] + eofs_from(b, i + 24)
    } else {
        eofs_from(b, i + 1)
    }
}

/// The scan's trailers lie in `[i, len - 24]`, in increasing order, at least
/// 24 bytes apart, each opening with the little-endian `FINAL_MAGIC`.
pub proof fn lemma_eofs_well_spaced(b: Seq<u8>, i: int)
    requires
        0 <= i,
    ensures
        ({
            let e = eofs_from(b, i);
            &&& forall|k: int| 0 <= k < e.len() ==> i <= #[trigger] e[k] && e[k] + 24 <= b.len()
            &&& forall|k: int| 0 <= k < e.len() ==> le_value(b.subrange(#[trigger] e[k], e[k] + 8))
                == final_magic()
            &&& forall|k: int| 0 <= k && k + 1 < e.len() ==> #[trigger] e[k] + 24 <= e[k + 1]
        }),
    decreases b.len() - i,
{
    let e = eofs_from(b, i);
    if i + 24 > b.len() {
        assert(e.len() == 0);
    } else if le_value(b.subrange(i, i + 8)) == final_magic() {
        lemma_eofs_well_spaced(b, i + 24);
        let rest = eofs_from(b, i + 24);
        assert(e =~= seq![i] + rest);
        assert forall|k: int| 0 <= k && k + 1 < e.len() implies #[trigger] e[k] + 24 <= e[k + 1] by {
            if k > 0 {
                assert(e[k] == rest[k - 1]);
                assert(e[k + 1] == rest[k]);
            } else {
                assert(e[1] == rest[0]);
            }
        }
        assert forall|k: int| 0 <= k < e.len() implies i <= #[trigger] e[k] && e[k] + 24
            <= b.len() by {
            if k > 0 {
                assert(e[k] == rest[k - 1]);
            }
        }
        assert forall|k: int| 0 <= k < e.len() implies le_value(b.subrange(#[trigger] e[k], e[k] + 8))
            == final_magic() by {
            if k > 0 {
                assert(e[k] == rest[k - 1]);
            }
        }
    } else {
        lemma_eofs_well_spaced(b, i + 1);
        assert(e == eofs_from(b, i + 1));
    }
}

/// Scan for `FINAL_MAGIC` (little-endian) at every offset from `start` where a
/// whole trailer fits, returning the trailer offsets in order; trailers do not
/// overlap.
fn find_eofs(bytes: &[u8], start: usize) -> (offs: Vec<usize>)
    ensures
        offs@.map_values(|o: usize| o as int) == eofs_from(bytes@, start as int),
{
    let layout = cache_layout();
    let len = bytes.len();
    let mut offs: Vec<usize> = Vec::new();
    let mut i = start;
    while i <= len && len - i >= layout.eof_len
        invariant
            len == bytes@.len(),
            layout.eof_len == 24,
            layout.final_magic == final_magic(),
            i >= start,
            eofs_from(bytes@, start as int) == offs@.map_values(|o: usize| o as int) + eofs_from(
                bytes@,
                i as int,
            ),
        decreases len + 1 - i,
    {
        let ghost old_offs = offs@;
        if safe_read::le_u64(bytes, i) == layout.final_magic {
            offs.push(i);
            assert(offs@.map_values(|o: usize| o as int) =~= old_offs.map_values(|o: usize| o as int)
                + seq![i as int]);
            i = i + layout.eof_len;
        } else {
            i = i + 1;
        }
    }
    assert(eofs_from(bytes@, i as int) =~= Seq::<int>::empty());
    assert(offs@.map_values(|o: usize| o as int) + Seq::<int>::empty() =~= offs@.map_values(
        |o: usize| o as int,
    ));
    offs
}

// ── URL carving ─────────────────────────────────────────────────────────────

/// The URL of a cache key: the text after its last white-space char (the
/// whole key when it has none).
pub open spec fn url_of(key: Seq<char>) -> Seq<char>
    decreases key.len(),
{
    if key.len() == 0 {
        key
    } else if is_white_space(key.last()) {
        Seq::empty()
    } else {
        url_of(key.drop_last()).push(key.last())
    }
}

/// `url_of(key)` is a suffix of `key` holding no white space, and is the whole
/// key when the key holds no white space.
pub proof fn lemma_url_of(key: Seq<char>)
    ensures
        url_of(key).len() <= key.len(),
        url_of(key) =~= key.subrange(key.len() - url_of(key).len(), key.len() as int),
        forall|i: int| 0 <= i < url_of(key).len() ==> !is_white_space(#[trigger] url_of(key)[i]),
        (forall|i: int| 0 <= i < key.len() ==> !is_white_space(#[trigger] key[i])) ==> url_of(key)
            == key,
    decreases key.len(),
{
    if key.len() > 0 && !is_white_space(key.last()) {
        lemma_url_of(key.drop_last());
        assert(key.drop_last().push(key.last()) =~= key);
        if forall|i: int| 0 <= i < key.len() ==> !is_white_space(#[trigger] key[i]) {
            assert forall|i: int| 0 <= i < key.drop_last().len() implies !is_white_space(
                #[trigger] key.drop_last()[i],
            ) by {
                assert(key.drop_last()[i] == key[i]);
            }
        }
    }
}

/// Carve the request URL from a cache key. Chrome prefixes the key with a
/// network-isolation key (`1/0/_dk_<top> <frame> <url>`); the URL is the last
/// white-space-separated token. A bare-URL key returns itself.
pub fn carve_url(key: &String) -> (url: String)
    ensures
        url@ == url_of(key@),
        url@.len() <= key@.len(),
        url@ == key@.subrange(key@.len() - url@.len(), key@.len() as int),
        forall|i: int| 0 <= i < url@.len() ==> !is_white_space(#[trigger] url@[i]),
        (forall|i: int| 0 <= i < key@.len() ==> !is_white_space(#[trigger] key@[i])) ==> url@
            == key@,
{
    proof {
        lemma_url_of(key@);
    }
    let chars = string_chars(key);
    let n = chars.len();
    let mut j = n;
    assert(chars@.subrange(0, n as int) =~= chars@);
    assert(chars@.subrange(n as int, n as int) =~= Seq::<char>::empty());
    assert(url_of(chars@) + Seq::<char>::empty() =~= url_of(chars@));
    while j > 0 && !is_whitespace_char(chars[j - 1])
        invariant
            j <= n == chars@.len(),
            chars@ == key@,
            url_of(chars@) == url_of(chars@.subrange(0, j as int)) + chars@.subrange(
                j as int,
                n as int,
            ),
        decreases j,
    {
        let ghost pre = chars@.subrange(0, j as int);
        assert(pre.drop_last() =~= chars@.subrange(0, j - 1));
        assert(url_of(pre) == url_of(pre.drop_last()).push(pre.last()));
        assert(seq![pre.last()] + chars@.subrange(j as int, n as int) =~= chars@.subrange(
            j - 1,
            n as int,
        ));
        assert(url_of(pre.drop_last()).push(pre.last()) + chars@.subrange(j as int, n as int)
            =~= url_of(chars@.subrange(0, j - 1)) + chars@.subrange(j - 1, n as int));
        j = j - 1;
    }
    assert(chars@.subrange(0, n as int) =~= chars@);
    let ghost pre = chars@.subrange(0, j as int);
    assert(url_of(pre) =~= Seq::<char>::empty()) by {
        if j > 0 {
            assert(pre.last() == chars@[j - 1]);
        }
    }
    let mut out: Vec<char> = Vec::new();
    let mut k = j;
    while k < n
        invariant
            j <= k <= n == chars@.len(),
            out@ =~= chars@.subrange(j as int, k as int),
        decreases n - k,
    {
        out.push(chars[k]);
        k = k + 1;
    }
    assert(Seq::<char>::empty() + chars@.subrange(j as int, n as int) =~= chars@.subrange(
        j as int,
        n as int,
    ));
    string_from_chars(&out)
}

// ── Sub-slice search ────────────────────────────────────────────────────────

/// Whether `needle` occurs in `haystack` at offset `i`.
pub open spec fn occurs_at(haystack: Seq<u8>, needle: Seq<u8>, i: int) -> bool {
    0 <= i && i + needle.len() <= haystack.len() && haystack.subrange(i, i + needle.len())
        =~= needle
}

/// Whether `haystack[i..i + needle.len()]` equals `needle`.
fn equal_at(haystack: &[u8], needle: &[u8], i: usize) -> (r: bool)
    requires
        i + needle@.len() <= haystack@.len(),
    ensures
        r == occurs_at(haystack@, needle@, i as int),
{
    let hl = haystack.len();
    let mut k: usize = 0;
    while k < needle.len()
        invariant
            hl == haystack@.len(),
            i + needle@.len() <= haystack@.len(),
            k <= needle@.len(),
            forall|m: int| 0 <= m < k ==> haystack@[i + m] == needle@[m],
        decreases needle@.len() - k,
    {
        if haystack[i + k] != needle[k] {
            assert(haystack@.subrange(i as int, i + needle@.len())[k as int] != needle@[k as int]);
            return false;
        }
        k = k + 1;
    }
    assert(haystack@.subrange(i as int, i + needle@.len()) =~= needle@);
    true
}

/// The first offset at which `needle` occurs in `haystack`; `None` when it
/// does not occur or is empty.
pub open spec fn first_occurrence(haystack: Seq<u8>, needle: Seq<u8>) -> Option<int> {
    if needle.len() > 0 && exists|j: int| occurs_at(haystack, needle, j) {
        Some(
            choose|j: int|
                occurs_at(haystack, needle, j) && forall|k: int|
                    0 <= k < j ==> !occurs_at(haystack, needle, k),
        )
    } else {
        None
    }
}

/// First offset of `needle` in `haystack`, or `None` (also for an empty
/// needle). Never panics.
pub fn find_subslice(haystack: &[u8], needle: &[u8]) -> (r: Option<usize>)
    ensures
        match r {
            Some(i) => needle@.len() > 0 && occurs_at(haystack@, needle@, i as int) && forall|j: int|
                0 <= j < i ==> !occurs_at(haystack@, needle@, j),
            None => needle@.len() == 0 || forall|j: int| !occurs_at(haystack@, needle@, j),
        },
        match r {
            Some(i) => first_occurrence(haystack@, needle@) == Some(i as int),
            None => first_occurrence(haystack@, needle@) is None,
        },
{
    if needle.len() == 0 || needle.len() > haystack.len() {
        return None;
    }
    let last = haystack.len() - needle.len();
    let mut i: usize = 0;
    let hl = haystack.len();
    while i <= last
        invariant
            hl == haystack@.len(),
            last == haystack@.len() - needle@.len(),
            needle@.len() > 0,
            forall|j: int| 0 <= j < i ==> !occurs_at(haystack@, needle@, j),
        decreases last + 1 - i,
    {
        if equal_at(haystack, needle, i) {
            proof {
                let j = choose|j: int|
                    occurs_at(haystack@, needle@, j) && forall|k: int|
                        0 <= k < j ==> !occurs_at(haystack@, needle@, k);
                assert(occurs_at(haystack@, needle@, j) && forall|k: int|
                    0 <= k < j ==> !occurs_at(haystack@, needle@, k));
                if j < i {
                } else if j > i {
                    assert(!occurs_at(haystack@, needle@, i as int));
                }
            }
            return Some(i);
        }
        i = i + 1;
    }
    proof {
        assert forall|j: int| !occurs_at(haystack@, needle@, j) by {
            if occurs_at(haystack@, needle@, j) {
                assert(0 <= j <= last);
            }
        }
    }
    None
}


// ── HttpResponseInfo pickle ─────────────────────────────────────────────────

/// The bytes `HTTP/` that open the raw header block.
pub open spec fn http_marker() -> Seq<u8> {
    seq![72u8, 84u8, 84u8, 80u8, 47u8]
}

/// The first offset at or after `i` holding a NUL byte, or `s.len()`.
pub open spec fn next_zero(s: Seq<u8>, i: int) -> int
    decreases s.len() - i,
{
    if i < 0 || i >= s.len() {
        s.len() as int
    } else if s[i] == 0 {
        i
    } else {
        next_zero(s, i + 1)
    }
}

/// `next_zero` from an offset inside `s` lands between it and the end.
pub proof fn lemma_next_zero_bounds(s: Seq<u8>, i: int)
    requires
        0 <= i <= s.len(),
    ensures
        i <= next_zero(s, i) <= s.len(),
    decreases s.len() - i,
{
    if i < s.len() && s[i] != 0 {
        lemma_next_zero_bounds(s, i + 1);
    }
}

/// The NUL-separated pieces of `s` from offset `i` on, as `split(|b| b == 0)`
/// yields them (a trailing NUL yields a final empty piece).
pub open spec fn segments_from(s: Seq<u8>, i: int) -> Seq<Seq<u8>>
    decreases s.len() + 1 - i,
{
    if i < 0 || i > s.len() {
        Seq::empty()
    } else {
        let z = next_zero(s, i);
        proof {
            lemma_next_zero_bounds(s, i);
        }
        if z >= s.len() {
            seq![s.subrange(i, s.len() as int)]
        } else {
            seq![s.subrange(i, z)] + segments_from(s, z + 1)
        }
    }
}

/// The first index of `c` in `s`.
pub open spec fn index_of_char(s: Seq<char>, c: char) -> Option<int>
    decreases s.len(),
{
    if s.len() == 0 {
        None
    } else if s[0] == c {
        Some(0)
    } else {
        match index_of_char(s.drop_first(), c) {
            Some(k) => Some(k + 1),
            None => None,
        }
    }
}

/// A header line split at its first `:` into a trimmed name and a trimmed
/// value; `None` when the line holds no `:`.
pub open spec fn line_pair(line: Seq<char>) -> Option<(Seq<char>, Seq<char>)> {
    match index_of_char(line, ':') {
        Some(k) => Some((trim(line.subrange(0, k)), trim(line.subrange(k + 1, line.len() as int)))),
        None => None,
    }
}

/// `index_of_char` finds the first occurrence of `c`, and `None` means `c`
/// does not occur.
pub proof fn lemma_index_of_char(s: Seq<char>, c: char)
    ensures
        match index_of_char(s, c) {
            Some(k) => 0 <= k < s.len() && s[k] == c && forall|j: int| 0 <= j < k ==> s[j] != c,
            None => forall|j: int| 0 <= j < s.len() ==> s[j] != c,
        },
    decreases s.len(),
{
    if s.len() > 0 && s[0] != c {
        lemma_index_of_char(s.drop_first(), c);
        match index_of_char(s.drop_first(), c) {
            Some(k) => {
                assert forall|j: int| 0 <= j < k + 1 implies s[j] != c by {
                    if j > 0 {
                        assert(s[j] == s.drop_first()[j - 1]);
                    }
                }
            },
            None => {
                assert forall|j: int| 0 <= j < s.len() implies s[j] != c by {
                    if j > 0 {
                        assert(s[j] == s.drop_first()[j - 1]);
                    }
                }
            },
        }
    }
}

/// A header line splits at its FIRST `:`: the name is the trimmed text
/// before it and the value the trimmed text from just after it to the end of
/// the line (so a value may itself hold `:`); a line with no `:` names no
/// header.
pub proof fn lemma_header_splits_at_first_colon(line: Seq<char>)
    ensures
        line_pair(line) is None <==> forall|j: int| 0 <= j < line.len() ==> line[j] != ':',
        forall|k: int|
            0 <= k < line.len() && line[k] == ':' && (forall|j: int| 0 <= j < k ==> line[j] != ':')
                ==> line_pair(line) == Some(
                (trim(line.subrange(0, k)), trim(line.subrange(k + 1, line.len() as int))),
            ),
{
    lemma_index_of_char(line, ':');
    assert forall|k: int|
        0 <= k < line.len() && line[k] == ':' && (forall|j: int| 0 <= j < k ==> line[j] != ':')
            implies line_pair(line) == Some(
            (trim(line.subrange(0, k)), trim(line.subrange(k + 1, line.len() as int))),
        ) by {
        match index_of_char(line, ':') {
            Some(m) => {
                if m < k {
                    assert(line[m] != ':');
                } else if m > k {
                    assert(line[k] != ':');
                }
            },
            None => {
                assert(line[k] != ':');
            },
        }
    }
}

/// The headers named by NUL-separated lines, up to the first empty line;
/// lines without a `:` contribute nothing.
pub open spec fn header_pairs(lines: Seq<Seq<u8>>) -> Seq<(Seq<char>, Seq<char>)>
    decreases lines.len(),
{
    if lines.len() == 0 || lines[0].len() == 0 {
        Seq::empty()
    } else {
        let here = match line_pair(utf8_text(lines[0])) {
            Some(p) => seq![p],
            None => Seq::empty(),
        };
        here + header_pairs(lines.drop_first())
    }
}

/// A pickle time field: the little-endian `u64` at `off`, absent when zero
/// (or out of range).
pub open spec fn pickle_time(p: Seq<u8>, off: int) -> Option<u64> {
    let v = le_or_zero(p, off, 8);
    if v == 0 {
        None
    } else {
        Some(v as u64)
    }
}

/// The raw header block of a pickle: everything from the first `HTTP/` on.
pub open spec fn header_block(p: Seq<u8>) -> Option<Seq<u8>> {
    match first_occurrence(p, http_marker()) {
        Some(i) => Some(p.subrange(i, p.len() as int)),
        None => None,
    }
}

/// The status line of a pickle: the header block's first NUL-separated piece.
pub open spec fn pickle_status(p: Seq<u8>) -> Option<Seq<char>> {
    match header_block(p) {
        Some(b) => Some(utf8_text(segments_from(b, 0)[0])),
        None => None,
    }
}

/// The headers of a pickle: the header block's later pieces as name/value
/// pairs.
pub open spec fn pickle_headers(p: Seq<u8>) -> Seq<(Seq<char>, Seq<char>)> {
    match header_block(p) {
        Some(b) => header_pairs(segments_from(b, 0).drop_first()),
        None => Seq::empty(),
    }
}

/// The view of a header list: each pair of strings as a pair of texts.
pub open spec fn headers_view(h: Seq<(String, String)>) -> Seq<(Seq<char>, Seq<char>)> {
    h.map_values(|p: (String, String)| (p.0@, p.1@))
}

/// The first NUL at or after `i` in `s`, or `s.len()`.
fn find_zero(s: &[u8], i: usize) -> (r: usize)
    requires
        i <= s@.len(),
    ensures
        r as int == next_zero(s@, i as int),
        i <= r <= s@.len(),
{
    let mut j = i;
    while j < s.len() && s[j] != 0
        invariant
            i <= j <= s@.len(),
            next_zero(s@, i as int) == next_zero(s@, j as int),
        decreases s@.len() - j,
    {
        j = j + 1;
    }
    j
}

/// One header line: split at its first `:`, both halves trimmed.
fn header_from_line(part: &[u8]) -> (r: Option<(String, String)>)
    ensures
        match r {
            Some(p) => line_pair(utf8_text(part@)) == Some((p.0@, p.1@)),
            None => line_pair(utf8_text(part@)) is None,
        },
        ({
            let t = utf8_text(part@);
            match r {
                Some(p) => exists|k: int|
                    0 <= k < t.len() && t[k] == ':' && (forall|j: int| 0 <= j < k ==> t[j] != ':')
                        && p.0@ == trim(t.subrange(0, k)) && p.1@ == trim(
                        t.subrange(k + 1, t.len() as int),
                    ),
                None => forall|j: int| 0 <= j < t.len() ==> t[j] != ':',
            }
        }),
{
    proof {
        lemma_header_splits_at_first_colon(utf8_text(part@));
        lemma_index_of_char(utf8_text(part@), ':');
    }
    let line = lossy_string(part);
    let chars = string_chars(&line);
    let n = chars.len();
    let mut k: usize = 0;
    assert(chars@.subrange(0, n as int) =~= chars@);
    while k < n && chars[k] != ':'
        invariant
            k <= n == chars@.len(),
            chars@ == utf8_text(part@),
            index_of_char(chars@, ':') == match index_of_char(chars@.subrange(k as int, n as int), ':') {
                Some(m) => Some(m + k),
                None => None,
            },
        decreases n - k,
    {
        assert(chars@.subrange(k as int, n as int).drop_first() =~= chars@.subrange(k + 1, n as int));
        k = k + 1;
    }
    if k == n {
        assert(chars@.subrange(k as int, n as int).len() == 0);
        return None;
    }
    assert(chars@.subrange(k as int, n as int)[0] == chars@[k as int]);
    let name = trim_range(&chars, 0, k);
    let value = trim_range(&chars, k + 1, n);
    Some((string_from_chars(&name), string_from_chars(&value)))
}

/// What the stream-0 `HttpResponseInfo` pickle yields.
struct ResponseInfo {
    request_time: Option<u64>,
    response_time: Option<u64>,
    status_line: Option<String>,
    headers: Vec<(String, String)>,
}

/// `segments_from(s, i)` opens with the piece that ends at the next NUL.
proof fn lemma_segments_step(s: Seq<u8>, i: int)
    requires
        0 <= i <= s.len(),
    ensures
        ({
            let z = next_zero(s, i);
            let segs = segments_from(s, i);
            &&& i <= z <= s.len()
            &&& segs.len() > 0
            &&& segs[0] == s.subrange(i, z)
            &&& z >= s.len() ==> segs.drop_first() =~= Seq::<Seq<u8>>::empty()
            &&& z < s.len() ==> segs.drop_first() =~= segments_from(s, z + 1)
        }),
    decreases s.len() - i,
{
    let z = next_zero(s, i);
    if i < s.len() && s[i] != 0 {
        lemma_segments_step(s, i + 1);
    }
    if z < s.len() {
        assert((seq![s.subrange(i, z)] + segments_from(s, z + 1)).drop_first() =~= segments_from(
            s,
            z + 1,
        ));
    }
}

/// Parse the stream-0 `HttpResponseInfo` pickle: the request/response times at
/// the fixed offsets 12 and 20, then the NUL-separated raw header block that
/// opens with `HTTP/`. Best-effort and panic-free: whatever is missing stays
/// `None`/empty.
fn parse_response_info(pickle: &[u8]) -> (r: ResponseInfo)
    ensures
        r.request_time == pickle_time(pickle@, 12),
        r.response_time == pickle_time(pickle@, 20),
        match r.status_line {
            Some(s) => pickle_status(pickle@) == Some(s@),
            None => pickle_status(pickle@) is None,
        },
        headers_view(r.headers@) == pickle_headers(pickle@),
{
    let rt = safe_read::le_u64(pickle, 12);
    let request_time = if rt != 0 {
        Some(rt)
    } else {
        None
    };
    let st = safe_read::le_u64(pickle, 20);
    let response_time = if st != 0 {
        Some(st)
    } else {
        None
    };
    let marker: [u8; 5] = [72u8, 84u8, 84u8, 80u8, 47u8];
    assert(marker@ =~= http_marker());
    let mut headers: Vec<(String, String)> = Vec::new();
    let rel = match find_subslice(pickle, marker.as_slice()) {
        Some(rel) => rel,
        None => {
            assert(headers_view(headers@) =~= Seq::<(Seq<char>, Seq<char>)>::empty());
            return ResponseInfo { request_time, response_time, status_line: None, headers };
        },
    };
    let block = slice_subrange(pickle, rel, pickle.len());
    let ghost b = block@;
    proof {
        lemma_segments_step(b, 0);
    }
    let z = find_zero(block, 0);
    let status = lossy_string(slice_subrange(block, 0, z));
    if z < block.len() {
        let mut pos = z + 1;
        let ghost target = header_pairs(segments_from(b, (z + 1) as int));
        assert(headers_view(headers@) + target =~= target);
        loop
            invariant_except_break
                b == block@,
                z + 1 <= pos <= b.len(),
                target == header_pairs(segments_from(b, (z + 1) as int)),
                headers_view(headers@) + header_pairs(segments_from(b, pos as int)) == target,
            ensures
                headers_view(headers@) == target,
            decreases b.len() - pos,
        {
            proof {
                lemma_segments_step(b, pos as int);
            }
            let e = find_zero(block, pos);
            let ghost segs = segments_from(b, pos as int);
            let part = slice_subrange(block, pos, e);
            if part.len() == 0 {
                assert(header_pairs(segs) =~= Seq::<(Seq<char>, Seq<char>)>::empty());
                assert(headers_view(headers@) =~= headers_view(headers@) + Seq::<
                    (Seq<char>, Seq<char>),
                >::empty());
                break ;
            }
            let ghost old_view = headers_view(headers@);
            match header_from_line(part) {
                Some(pair) => {
                    headers.push(pair);
                    assert(headers_view(headers@) =~= old_view + seq![(pair.0@, pair.1@)]);
                },
                None => {},
            }
            if e >= block.len() {
                assert(header_pairs(segs.drop_first()) =~= Seq::<(Seq<char>, Seq<char>)>::empty());
                assert(headers_view(headers@) =~= headers_view(headers@) + Seq::<
                    (Seq<char>, Seq<char>),
                >::empty());
                break ;
            }
            pos = e + 1;
        }
    } else {
        assert(headers_view(headers@) =~= Seq::<(Seq<char>, Seq<char>)>::empty());
    }
    ResponseInfo { request_time, response_time, status_line: Some(status), headers }
}


// ── The entry ───────────────────────────────────────────────────────────────

/// One decoded Simple Cache entry.
#[derive(Debug, Clone, PartialEq, Eq)]
pub struct CacheEntry {
    /// The cache key, decoded (lossily) as UTF-8.
    pub key: String,
    /// The request URL carved from the key.
    pub url: String,
    /// The header's `key_hash` field.
    pub key_hash: u32,
    /// The header's format `version` field.
    pub version: u32,
    /// The HTTP status line, when the response pickle carries a header block.
    pub status_line: Option<String>,
    /// The HTTP response headers as trimmed `(name, value)` pairs.
    pub headers: Vec<(String, String)>,
    /// The stream-1 body (the response payload).
    pub body: Vec<u8>,
    /// The CRC-32 the body's trailer records, when its flags say it has one.
    pub body_crc32: Option<u32>,
    /// The request time (WebKit microseconds), when recorded.
    pub request_time_webkit_micros: Option<u64>,
    /// The response time (WebKit microseconds), when recorded.
    pub response_time_webkit_micros: Option<u64>,
    /// The SHA-256 of the key that follows the stream-0 pickle, when flagged
    /// and wholly present.
    pub key_sha256: Option<[u8; 32]>,
}

/// The header's little-endian `key_length` field.
pub open spec fn key_length_field(b: Seq<u8>) -> nat {
    le_or_zero(b, 12, 4)
}

/// A trailer's `flags` word.
pub open spec fn eof_flags(b: Seq<u8>, eof: int) -> nat {
    le_or_zero(b, eof + 8, 4)
}

/// The stream-0 region: from just after the first trailer to the second.
pub open spec fn stream0_region(b: Seq<u8>, eofs: Seq<int>) -> Seq<u8> {
    b.subrange(eofs[0] + 24, eofs[1])
}

/// The second trailer's `stream_size`: the pickle's length within the region.
pub open spec fn stream0_size(b: Seq<u8>, eofs: Seq<int>) -> nat {
    le_or_zero(b, eofs[1] + 16, 4)
}

/// The pickle: the first `stream_size` bytes of the stream-0 region (all of
/// it when it is shorter).
pub open spec fn stream0_pickle(b: Seq<u8>, eofs: Seq<int>) -> Seq<u8> {
    let region = stream0_region(b, eofs);
    let ss = stream0_size(b, eofs);
    if ss <= region.len() {
        region.subrange(0, ss as int)
    } else {
        region
    }
}

/// Whether the stream-0 trailer flags a key SHA-256 and all 32 of its bytes
/// follow the pickle inside the region.
pub open spec fn has_key_digest(b: Seq<u8>, eofs: Seq<int>) -> bool {
    eof_flags(b, eofs[1]) as u32 & 2 != 0 && stream0_size(b, eofs) + 32 <= stream0_region(
        b,
        eofs,
    ).len()
}

/// What a well-formed header (valid magic, key within the buffer) in `b`
/// decodes to.
pub open spec fn entry_matches(b: Seq<u8>, e: CacheEntry) -> bool {
    let ds: int = 24 + key_length_field(b) as int;
    let eofs = eofs_from(b, ds);
    &&& e.version == le_or_zero(b, 8, 4)
    &&& e.key_hash == le_or_zero(b, 16, 4)
    &&& e.key@ == utf8_text(b.subrange(24, ds))
    &&& e.url@ == url_of(e.key@)
    &&& e.body@ == if eofs.len() > 0 {
        b.subrange(ds, eofs[0])
    } else {
        Seq::empty()
    }
    &&& e.body_crc32 == if eofs.len() > 0 && eof_flags(b, eofs[0]) as u32 & 1 != 0 {
        Some(le_or_zero(b, eofs[0] + 12, 4) as u32)
    } else {
        None
    }
    &&& if eofs.len() >= 2 {
        let pickle = stream0_pickle(b, eofs);
        let region = stream0_region(b, eofs);
        let ss = stream0_size(b, eofs);
        &&& e.request_time_webkit_micros == pickle_time(pickle, 12)
        &&& e.response_time_webkit_micros == pickle_time(pickle, 20)
        &&& match e.status_line {
            Some(s) => pickle_status(pickle) == Some(s@),
            None => pickle_status(pickle) is None,
        }
        &&& headers_view(e.headers@) == pickle_headers(pickle)
        &&& match e.key_sha256 {
            Some(d) => has_key_digest(b, eofs) && d@ == region.subrange(ss as int, ss + 32int),
            None => !has_key_digest(b, eofs),
        }
    } else {
        &&& e.request_time_webkit_micros is None
        &&& e.response_time_webkit_micros is None
        &&& e.status_line is None
        &&& e.headers@.len() == 0
        &&& e.key_sha256 is None
    }
}

/// The leading magic of a buffer of at least 24 bytes is the entry magic.
pub open spec fn magic_ok(b: Seq<u8>) -> bool {
    le_value(b.subrange(0, 8)) == initial_magic()
}

/// Parse a Simple Cache entry file.
///
/// A buffer shorter than the 24-byte header is `TooShort`; a wrong leading
/// magic is `BadMagic` with the eight bytes found; a `key_length` running past
/// the buffer is `KeyLengthOutOfRange`. Every other buffer parses: a truncated
/// entry still yields its key and URL, and whatever trailers are present fill
/// the body, its CRC-32, the response times, status line and headers, and the
/// key SHA-256.
pub fn parse_entry(bytes: &[u8]) -> (r: Result<CacheEntry, CacheError>)
    ensures
        bytes@.len() < 24 ==> r == Err::<CacheEntry, CacheError>(
            CacheError::TooShort { available: bytes@.len() as usize },
        ),
        bytes@.len() >= 24 && !magic_ok(bytes@) ==> (r matches Err(CacheError::BadMagic { found })
            && found@ == bytes@.subrange(0, 8)),
        bytes@.len() >= 24 && magic_ok(bytes@) && key_length_field(bytes@) > bytes@.len() - 24
            ==> r == Err::<CacheEntry, CacheError>(
            CacheError::KeyLengthOutOfRange {
                key_length: key_length_field(bytes@) as u64,
                available: (bytes@.len() - 24) as usize,
            },
        ),
        bytes@.len() >= 24 && magic_ok(bytes@) && key_length_field(bytes@) <= bytes@.len() - 24
            ==> (r matches Ok(e) && entry_matches(bytes@, e)),
{
    let layout = cache_layout();
    let len = bytes.len();
    if len < layout.header_len {
        return Err(CacheError::TooShort { available: len });
    }
    // ── SimpleFileHeader ──
    let magic = safe_read::le_u64(bytes, layout.header_magic_offset);
    if magic != layout.initial_magic {
        let found: [u8; 8] = [
            bytes[0],
            bytes[1],
            bytes[2],
            bytes[3],
            bytes[4],
            bytes[5],
            bytes[6],
            bytes[7],
        ];
        assert(found@ =~= bytes@.subrange(0, 8));
        return Err(CacheError::BadMagic { found });
    }
    let version = safe_read::le_u32(bytes, layout.header_version_offset);
    let key_length = safe_read::le_u32(bytes, layout.header_key_length_offset);
    let key_hash = safe_read::le_u32(bytes, layout.header_key_hash_offset);

    let key_start = layout.header_len;
    let available = len - key_start;
    let key_len = key_length as usize;
    if key_len > available {
        return Err(CacheError::KeyLengthOutOfRange { key_length: key_length as u64, available });
    }
    let key = lossy_string(slice_subrange(bytes, key_start, key_start + key_len));
    let url = carve_url(&key);

    // ── Locate the EOF trailers after the key ──
    let data_start = key_start + key_len;
    let eofs = find_eofs(bytes, data_start);
    let ghost es = eofs_from(bytes@, data_start as int);
    proof {
        lemma_eofs_well_spaced(bytes@, data_start as int);
        assert(eofs@.len() == es.len());
        if es.len() > 0 {
            assert(es[0] == eofs@[0] as int);
        }
        if es.len() > 1 {
            assert(es[1] == eofs@[1] as int);
        }
    }

    let mut entry = CacheEntry {
        key,
        url,
        key_hash,
        version,
        status_line: None,
        headers: Vec::new(),
        body: Vec::new(),
        body_crc32: None,
        request_time_webkit_micros: None,
        response_time_webkit_micros: None,
        key_sha256: None,
    };

    // Stream 1 (body): key end to the first trailer.
    if eofs.len() == 0 {
        // Truncated: the URL survives, there is nothing more to read.
        return Ok(entry);
    }
    let eof1 = eofs[0];
    entry.body = slice_to_vec(slice_subrange(bytes, data_start, eof1));
    let eof1_flags = safe_read::le_u32(bytes, eof1 + layout.eof_flags_offset);
    if forensicnomicon_core::chromium_simple_cache::has_crc32(eof1_flags) {
        entry.body_crc32 = Some(safe_read::le_u32(bytes, eof1 + layout.eof_data_crc32_offset));
    }

    // Stream 0 (HttpResponseInfo pickle): after trailer 1 to the second trailer.
    if eofs.len() < 2 {
        return Ok(entry);
    }
    let eof0 = eofs[1];
    let region_start = eof1 + layout.eof_len;
    // Trailers never overlap, so the region is well formed.
    let region = slice_subrange(bytes, region_start, eof0);
    let stream_size = safe_read::le_u32(bytes, eof0 + layout.eof_stream_size_offset) as usize;
    let eof0_flags = safe_read::le_u32(bytes, eof0 + layout.eof_flags_offset);
    // The pickle occupies the first `stream_size` bytes; a trailing 32-byte key
    // SHA-256 (when flagged) follows it inside the same region.
    let pickle = if stream_size <= region.len() {
        slice_subrange(region, 0, stream_size)
    } else {
        region
    };
    let info = parse_response_info(pickle);
    entry.request_time_webkit_micros = info.request_time;
    entry.response_time_webkit_micros = info.response_time;
    entry.status_line = info.status_line;
    entry.headers = info.headers;
    if forensicnomicon_core::chromium_simple_cache::has_key_sha256(eof0_flags) {
        if stream_size <= region.len() && region.len() - stream_size >= 32 {
            let mut arr: [u8; 32] = [0u8; 32];
            let mut j: usize = 0;
            let rl = region.len();
            while j < 32
                invariant
                    rl == region@.len(),
                    j <= 32,
                    stream_size + 32 <= region@.len(),
                    forall|m: int| 0 <= m < j ==> arr@[m] == region@[stream_size + m],
                decreases 32 - j,
            {
                arr[j] = region[stream_size + j];
                j = j + 1;
            }
            assert(arr@ =~= region@.subrange(stream_size as int, stream_size + 32));
            entry.key_sha256 = Some(arr);
        }
    }
    Ok(entry)
}

} // verus!

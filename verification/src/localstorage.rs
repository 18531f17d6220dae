//! Chromium Local Storage (DOM Storage on LevelDB) reader.
//!
//! Every raw record is classified into a [`LocalStorageRecord`]: a per-origin
//! `META:` record (a protobuf carrying the store's size and a WebKit
//! microsecond last-modified time); a data record (`"_"` + origin + NUL +
//! script key, whose script key and value are type-prefixed strings); or
//! anything else, surfaced raw. Tombstones and superseded versions are kept.

use vstd::prelude::*;
use vstd::slice::slice_subrange;
use crate::ls_value::{decode_type_prefixed, decodes_type_prefixed, is_empty_value, StorageValue};
use crate::record::Record;
use crate::text::{latin1_chars, latin1_decode, string_from_chars};
use crate::varint::{read_varint, spec_read_varint};

verus! {

/// One decoded Local Storage record. Deletion tombstones and superseded
/// versions surface too (each carries its `seq` and `deleted` flag).
#[derive(Clone, Debug, PartialEq, Eq)]
pub enum LocalStorageRecord {
    /// Origin-level metadata from a `META:` key.
    Meta {
        /// The storage key (origin) this metadata describes.
        origin: String,
        /// Last-modified time, WebKit microseconds (since 1601-01-01 UTC).
        timestamp_webkit_micros: u64,
        /// Declared size in bytes, if the protobuf carried the size field.
        size: Option<u64>,
        /// LevelDB sequence number.
        seq: u64,
        /// `true` if this is a deletion tombstone.
        deleted: bool,
    },
    /// An actual stored key/value pair.
    Data {
        /// The storage key (origin), decoded as Latin-1.
        origin: String,
        /// The script-visible key (a type-prefixed string).
        script_key: StorageValue,
        /// The stored value (a type-prefixed string; empty for a tombstone).
        value: StorageValue,
        /// LevelDB sequence number.
        seq: u64,
        /// `true` if this is a deletion tombstone.
        deleted: bool,
    },
    /// A key that matched neither the Meta nor the Data shape, verbatim.
    Other {
        /// The raw user key.
        key: Vec<u8>,
        /// LevelDB sequence number.
        seq: u64,
        /// `true` if this is a deletion tombstone.
        deleted: bool,
    },
}

/// The key-schema facts this reader uses.
struct LsSchema {
    meta_prefix: &'static [u8],
    data_key_prefix: u8,
    key_separator: u8,
}

/// The bytes `META:`.
pub open spec fn meta_prefix() -> Seq<u8> {
    seq![77u8, 69u8, 84u8, 65u8, 58u8]
}

/// `META_PREFIX` (`b"META:"`), `DATA_KEY_PREFIX` (`b'_'`) and `KEY_SEPARATOR`
/// (`0x00`) of `forensicnomicon_core::chromium_local_storage`.
#[verifier::external_body]
fn ls_schema() -> (s: LsSchema)
    ensures
        s.meta_prefix@ == meta_prefix(),
        s.data_key_prefix == 95,
        s.key_separator == 0,
{
    LsSchema {
        meta_prefix: forensicnomicon_core::chromium_local_storage::META_PREFIX,
        data_key_prefix: forensicnomicon_core::chromium_local_storage::DATA_KEY_PREFIX,
        key_separator: forensicnomicon_core::chromium_local_storage::KEY_SEPARATOR,
    }
}

/// Decode a byte string as ISO-8859-1 (Latin-1): each byte is one code point.
/// Origins are stored as Latin-1 in the key.
pub fn latin1(raw: &[u8]) -> (s: String)
    ensures
        s@ == latin1_chars(raw@),
{
    let chars = latin1_decode(raw);
    string_from_chars(&chars)
}

/// The `StorageMetadata` protobuf: field 1 (tag `0x08`) is the WebKit
/// microsecond timestamp varint and must come first; an optional field 2
/// (tag `0x10`) right after it is the declared size varint.
pub open spec fn spec_meta_protobuf(data: Seq<u8>) -> Option<(u64, Option<u64>)> {
    match spec_read_varint(data, 0) {
        Some((tag, off)) => if tag != 8 {
            None
        } else {
            match spec_read_varint(data, off) {
                Some((timestamp, off1)) => {
                    let size = match spec_read_varint(data, off1) {
                        Some((t2, off2)) => if t2 == 16 {
                            match spec_read_varint(data, off2) {
                                Some((v, _)) => Some(v),
                                None => None,
                            }
                        } else {
                            None
                        },
                        None => None,
                    };
                    Some((timestamp, size))
                },
                None => None,
            }
        },
        None => None,
    }
}

/// Parse the `StorageMetadata` protobuf: `None` unless the payload opens with
/// the field-1 timestamp, as Chrome writes it.
pub fn parse_meta_protobuf(data: &[u8]) -> (r: Option<(u64, Option<u64>)>)
    ensures
        r == spec_meta_protobuf(data@),
{
    let (tag, off) = match read_varint(data, 0) {
        Some(x) => x,
        None => return None,
    };
    if tag != 0x08 {
        return None;
    }
    let (timestamp, off) = match read_varint(data, off) {
        Some(x) => x,
        None => return None,
    };
    let size = match read_varint(data, off) {
        Some((t2, off2)) => {
            if t2 == 0x10 {
                match read_varint(data, off2) {
                    Some((v, _)) => Some(v),
                    None => None,
                }
            } else {
                None
            }
        },
        None => None,
    };
    Some((timestamp, size))
}

/// The first NUL in `s`, if any.
pub open spec fn first_nul(s: Seq<u8>) -> Option<int>
    decreases s.len(),
{
    if s.len() == 0 {
        None
    } else if s[0] == 0 {
        Some(0)
    } else {
        match first_nul(s.drop_first()) {
            Some(k) => Some(k + 1),
            None => None,
        }
    }
}

/// Whether `key` opens with `META:`.
pub open spec fn is_meta_key(key: Seq<u8>) -> bool {
    key.len() >= 5 && key.subrange(0, 5) == meta_prefix()
}

/// Whether `o` is what record `r` classifies as.
pub open spec fn classifies_as(r: Record, o: LocalStorageRecord) -> bool {
    let key = r.key@;
    if is_meta_key(key) {
        let origin = latin1_chars(key.subrange(5, key.len() as int));
        if r.deleted {
            o matches LocalStorageRecord::Meta { origin: og, timestamp_webkit_micros, size, seq, deleted }
                && og@ == origin && timestamp_webkit_micros == 0 && size is None && seq == r.seq
                && deleted
        } else {
            match spec_meta_protobuf(r.value@) {
                Some((ts, sz)) => o matches LocalStorageRecord::Meta {
                    origin: og,
                    timestamp_webkit_micros,
                    size,
                    seq,
                    deleted,
                } && og@ == origin && timestamp_webkit_micros == ts && size == sz && seq == r.seq
                    && !deleted,
                None => o matches LocalStorageRecord::Other { key: k, seq, deleted } && k@ == key
                    && seq == r.seq && deleted == r.deleted,
            }
        }
    } else if key.len() > 0 && key[0] == 95 && first_nul(key.drop_first()) is Some {
        let body = key.drop_first();
        let n = first_nul(body).unwrap();
        o matches LocalStorageRecord::Data { origin, script_key, value, seq, deleted }
            && origin@ == latin1_chars(body.subrange(0, n)) && decodes_type_prefixed(
            body.subrange(n + 1, body.len() as int),
            script_key,
        ) && (if r.deleted {
            is_empty_value(value)
        } else {
            decodes_type_prefixed(r.value@, value)
        }) && seq == r.seq && deleted == r.deleted
    } else {
        o matches LocalStorageRecord::Other { key: k, seq, deleted } && k@ == key && seq == r.seq
            && deleted == r.deleted
    }
}

/// A deletion keeps the name of what was deleted: a `DATA`-shaped record
/// (`_`, origin, NUL, script key) is a `Data` record whose script key carries
/// the key bytes after the first NUL, decoded as a type-prefixed string,
/// whether or not it is a tombstone; only its value depends on the tombstone
/// flag. So a tombstone and a live write of the same key name the same
/// script key.
pub proof fn lemma_tombstone_keeps_its_script_key(
    r1: Record,
    o1: LocalStorageRecord,
    r2: Record,
    o2: LocalStorageRecord,
)
    requires
        classifies_as(r1, o1),
        classifies_as(r2, o2),
        !is_meta_key(r1.key@),
        r1.key@.len() > 0 && r1.key@[0] == 95,
        first_nul(r1.key@.drop_first()) is Some,
        r2.key@ == r1.key@,
    ensures
        ({
            let body = r1.key@.drop_first();
            let n = first_nul(body).unwrap();
            &&& o1 matches LocalStorageRecord::Data { script_key, .. } && script_key.raw@
                == body.subrange(n + 1, body.len() as int) && decodes_type_prefixed(
                body.subrange(n + 1, body.len() as int),
                script_key,
            )
            &&& o1 matches LocalStorageRecord::Data { script_key: k1, .. } && o2 matches LocalStorageRecord::Data {
                script_key: k2,
                ..
            } && k1.text@ == k2.text@ && k1.raw@ == k2.raw@ && k1.encoding == k2.encoding
                && k1.lossy == k2.lossy
        }),
{
    let body = r1.key@.drop_first();
    let n = first_nul(body).unwrap();
    let after = body.subrange(n + 1, body.len() as int);
    if after.len() > 0 {
        match (o1, o2) {
            (
                LocalStorageRecord::Data { script_key: k1, .. },
                LocalStorageRecord::Data { script_key: k2, .. },
            ) => {
                crate::ls_value::lemma_raw_always_kept(after, k1);
            },
            _ => {},
        }
    }
}

/// A raw record surfaced as it is.
fn other(r: &Record) -> (o: LocalStorageRecord)
    ensures
        o matches LocalStorageRecord::Other { key, seq, deleted } && key@ == r.key@ && seq == r.seq
            && deleted == r.deleted,
{
    LocalStorageRecord::Other { key: r.key.clone(), seq: r.seq, deleted: r.deleted }
}

/// Whether `key` opens with `prefix`.
fn starts_with(key: &[u8], prefix: &[u8]) -> (r: bool)
    ensures
        r == (key@.len() >= prefix@.len() && key@.subrange(0, prefix@.len() as int) == prefix@),
{
    if key.len() < prefix.len() {
        return false;
    }
    let mut i: usize = 0;
    while i < prefix.len()
        invariant
            key@.len() >= prefix@.len(),
            i <= prefix@.len(),
            forall|k: int| 0 <= k < i ==> key@[k] == prefix@[k],
        decreases prefix@.len() - i,
    {
        if key[i] != prefix[i] {
            assert(key@.subrange(0, prefix@.len() as int)[i as int] != prefix@[i as int]);
            return false;
        }
        i = i + 1;
    }
    assert(key@.subrange(0, prefix@.len() as int) =~= prefix@);
    true
}

/// The first NUL in `s`, if any.
fn find_nul(s: &[u8]) -> (r: Option<usize>)
    ensures
        match r {
            Some(n) => first_nul(s@) == Some(n as int),
            None => first_nul(s@) is None,
        },
{
    let mut j: usize = 0;
    assert(s@.subrange(0, s@.len() as int) =~= s@);
    while j < s.len()
        invariant
            j <= s@.len(),
            first_nul(s@) == match first_nul(s@.subrange(j as int, s@.len() as int)) {
                Some(k) => Some(k + j),
                None => None,
            },
        decreases s@.len() - j,
    {
        assert(s@.subrange(j as int, s@.len() as int)[0] == s@[j as int]);
        if s[j] == 0 {
            return Some(j);
        }
        assert(s@.subrange(j as int, s@.len() as int).drop_first() =~= s@.subrange(
            j + 1,
            s@.len() as int,
        ));
        j = j + 1;
    }
    None
}

/// Classify a record whose key opens with `META:`.
fn classify_meta(r: &Record, origin_raw: &[u8]) -> (o: LocalStorageRecord)
    requires
        is_meta_key(r.key@),
        origin_raw@ == r.key@.subrange(5, r.key@.len() as int),
    ensures
        classifies_as(*r, o),
{
    let origin = latin1(origin_raw);
    if r.deleted {
        // A cleared metadata entry: no protobuf to parse, but the tombstone
        // itself is forensically meaningful.
        return LocalStorageRecord::Meta {
            origin,
            timestamp_webkit_micros: 0,
            size: None,
            seq: r.seq,
            deleted: true,
        };
    }
    match parse_meta_protobuf(r.value.as_slice()) {
        Some((timestamp_webkit_micros, size)) => LocalStorageRecord::Meta {
            origin,
            timestamp_webkit_micros,
            size,
            seq: r.seq,
            deleted: false,
        },
        None => other(r),
    }
}

/// Classify a record whose key opens with `_` and holds a NUL after it.
fn classify_data(r: &Record, body: &[u8], nul: usize) -> (o: LocalStorageRecord)
    requires
        !is_meta_key(r.key@),
        r.key@.len() > 0 && r.key@[0] == 95,
        body@ == r.key@.drop_first(),
        first_nul(body@) == Some(nul as int),
        nul < body@.len(),
    ensures
        classifies_as(*r, o),
{
    let origin = latin1(slice_subrange(body, 0, nul));
    let blen = body.len();
    let script_key = decode_type_prefixed(slice_subrange(body, nul + 1, blen));
    let value = if r.deleted {
        StorageValue::empty()
    } else {
        decode_type_prefixed(r.value.as_slice())
    };
    LocalStorageRecord::Data { origin, script_key, value, seq: r.seq, deleted: r.deleted }
}

/// A NUL found by `first_nul` lies inside the sequence.
proof fn lemma_first_nul_in(s: Seq<u8>)
    ensures
        first_nul(s) matches Some(n) ==> 0 <= n < s.len(),
    decreases s.len(),
{
    if s.len() > 0 && s[0] != 0 {
        lemma_first_nul_in(s.drop_first());
    }
}

/// Classify one raw record as `Meta`, `Data` or `Other`.
fn classify(r: &Record) -> (o: LocalStorageRecord)
    ensures
        classifies_as(*r, o),
{
    let schema = ls_schema();
    let key = r.key.as_slice();
    let len = key.len();
    if starts_with(key, schema.meta_prefix) {
        return classify_meta(r, slice_subrange(key, schema.meta_prefix.len(), len));
    }
    if len > 0 && key[0] == schema.data_key_prefix {
        let body = slice_subrange(key, 1, len);
        assert(body@ =~= key@.drop_first());
        proof {
            lemma_first_nul_in(body@);
        }
        if let Some(nul) = find_nul(body) {
            return classify_data(r, body, nul);
        }
    }
    other(r)
}

/// Decode Local Storage records from raw LevelDB records: each record, in
/// order, classified as `Meta`, `Data` or `Other`; tombstones and superseded
/// versions are kept.
pub fn decode_records(records: &[Record]) -> (out: Vec<LocalStorageRecord>)
    ensures
        out@.len() == records@.len(),
        forall|i: int| 0 <= i < records@.len() ==> classifies_as(records@[i], #[trigger] out@[i]),
{
    let mut out: Vec<LocalStorageRecord> = Vec::new();
    let mut i: usize = 0;
    while i < records.len()
        invariant
            i <= records@.len(),
            out@.len() == i,
            forall|k: int| 0 <= k < i ==> classifies_as(records@[k], #[trigger] out@[k]),
        decreases records@.len() - i,
    {
        out.push(classify(&records[i]));
        i = i + 1;
    }
    out
}


/// The sequence number a decoded record carries.
pub open spec fn record_seq(o: LocalStorageRecord) -> u64 {
    match o {
        LocalStorageRecord::Meta { seq, .. } => seq,
        LocalStorageRecord::Data { seq, .. } => seq,
        LocalStorageRecord::Other { seq, .. } => seq,
    }
}

/// The tombstone flag a decoded record carries.
pub open spec fn record_deleted(o: LocalStorageRecord) -> bool {
    match o {
        LocalStorageRecord::Meta { deleted, .. } => deleted,
        LocalStorageRecord::Data { deleted, .. } => deleted,
        LocalStorageRecord::Other { deleted, .. } => deleted,
    }
}

/// Nothing is dropped or reordered: every raw record yields exactly one
/// decoded record, in the same position, with the same sequence number and
/// tombstone flag (so deletions and superseded versions surface too).
pub proof fn lemma_decoding_keeps_every_record(
    records: Seq<Record>,
    out: Seq<LocalStorageRecord>,
)
    requires
        out.len() == records.len(),
        forall|i: int| 0 <= i < records.len() ==> classifies_as(records[i], #[trigger] out[i]),
    ensures
        forall|i: int|
            0 <= i < records.len() ==> record_seq(#[trigger] out[i]) == records[i].seq
                && record_deleted(out[i]) == records[i].deleted,
{
    assert forall|i: int| 0 <= i < records.len() implies record_seq(#[trigger] out[i])
        == records[i].seq && record_deleted(out[i]) == records[i].deleted by {
        assert(classifies_as(records[i], out[i]));
    }
}

} // verus!

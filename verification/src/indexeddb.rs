//! Chromium IndexedDB (over LevelDB) reader.
//!
//! Every record key opens with a `KeyPrefix` naming its `(database id, object
//! store id, index id)`. Object-store data records (index id 1) carry the
//! encoded primary key in the key tail and, in the value, a wrapper-version
//! varint followed by a Blink `SerializedScriptValue`. The reader resolves the
//! database and object-store names from their metadata records, decodes each
//! data record's key, and deserializes its value, emitting one
//! [`IndexedDbRecord`] per data record.

use vstd::prelude::*;
use vstd::slice::{slice_subrange, slice_to_vec};
use blob_decoder::v8_value::V8Value;
use crate::bytes::le_value;
use crate::idb_key::{decode_key_spec, key_view, IdbKey};
use crate::idb_prefix::{pow256, spec_key_prefix, KeyPrefix};
use crate::record::Record;
use crate::text::{decode_utf16, string_from_chars, utf16_text};
use crate::varint::{read_varint, spec_read_varint};
use std::collections::HashMap;

verus! {

/// A decoded V8 structured-clone value (from `blob_decoder`), carried as it is.
#[verifier::external_type_specification]
#[verifier::external_body]
pub struct ExV8Value(V8Value);

/// `V8Value`'s derived `Clone`: an equal value.
pub assume_specification[ <V8Value as Clone>::clone ](v: &V8Value) -> (r: V8Value)
    ensures
        r == *v,
;

/// What `blob_decoder::v8_value::deserialize_blink` makes of a value body:
/// the decoded value, or the text of its error.
pub uninterp spec fn blink_decoded(body: Seq<u8>) -> Result<V8Value, Seq<char>>;

/// `blob_decoder::v8_value::deserialize_blink`: deserialize a Blink
/// `SerializedScriptValue`, its error rendered as text. The outcome (named by
/// `blink_decoded`) depends on the body alone; nothing more of the V8 decoder
/// is stated.
#[verifier::external_body]
fn deserialize_blink(body: &[u8]) -> (r: Result<V8Value, String>)
    ensures
        match r {
            Ok(v) => blink_decoded(body@) == Ok::<V8Value, Seq<char>>(v),
            Err(e) => blink_decoded(body@) == Err::<V8Value, Seq<char>>(e@),
        },
{
    match blob_decoder::v8_value::deserialize_blink(body) {
        Ok(v) => Ok(v),
        Err(e) => Err(e.to_string()),
    }
}

/// The value stored against an IndexedDB object-store record.
#[derive(Clone, Debug, PartialEq)]
pub enum RecordValue {
    /// A decoded V8 structured-clone value.
    V8(V8Value),
    /// The value could not be deserialized; raw bytes and error retained.
    Undecoded {
        /// The value bytes after the wrapper-version varint (verbatim).
        raw: Vec<u8>,
        /// A human-readable description of the decode failure.
        error: String,
    },
}

/// The Blink body of a record value: what follows its wrapper-version varint
/// (the whole value when no varint can be read).
pub open spec fn value_body(value: Seq<u8>) -> Seq<u8> {
    match spec_read_varint(value, 0) {
        Some((_, off)) => value.subrange(off, value.len() as int),
        None => value,
    }
}

/// Whether `v` is what a record value `value` decodes to.
pub open spec fn value_decodes_to(value: Seq<u8>, v: RecordValue) -> bool {
    let body = value_body(value);
    match blink_decoded(body) {
        Ok(x) => v == RecordValue::V8(x),
        Err(e) => v matches RecordValue::Undecoded { raw, error } && raw@ == body && error@ == e,
    }
}

/// A varint at offset 0 ends inside the value.
proof fn lemma_varint_in_value(value: Seq<u8>)
    ensures
        spec_read_varint(value, 0) matches Some((v, off)) ==> 0 < off <= value.len(),
{
    crate::varint::lemma_varint_extent(value, 0);
}

/// Decode an object-store record value: strip the wrapper-version varint, then
/// deserialize the Blink `SerializedScriptValue`. On failure the raw
/// (post-varint) bytes and the error are kept.
fn decode_value(value: &[u8]) -> (r: RecordValue)
    ensures
        value_decodes_to(value@, r),
{
    proof {
        lemma_varint_in_value(value@);
    }
    let body_off = match read_varint(value, 0) {
        Some((_, off)) => off,
        None => 0,
    };
    let body = slice_subrange(value, body_off, value.len());
    assert(body@ =~= value_body(value@)) by {
        if spec_read_varint(value@, 0) is None {
            assert(value@.subrange(0, value@.len() as int) =~= value@);
        }
    }
    match deserialize_blink(body) {
        Ok(v) => RecordValue::V8(v),
        Err(e) => RecordValue::Undecoded { raw: slice_to_vec(body), error: e },
    }
}


// ── Key-coding facts (from forensicnomicon-core) ────────────────────────────

/// The key-coding facts this reader uses.
pub struct IdbCoding {
    /// The index id of object-store data records.
    pub index_id_object_store_data: u64,
    /// The database-metadata type byte that opens object-store metadata.
    pub object_store_meta_type: u8,
    /// The object-store metadata sub-type that holds the store's name.
    pub os_meta_name: u8,
}

/// `INDEX_ID_OBJECT_STORE_DATA` (1), `OBJECT_STORE_META_TYPE` (50) and
/// `OS_META_NAME` (0) of `forensicnomicon_core::chromium_indexeddb`.
#[verifier::external_body]
fn idb_coding() -> (c: IdbCoding)
    ensures
        c.index_id_object_store_data == 1,
        c.object_store_meta_type == 50,
        c.os_meta_name == 0,
{
    IdbCoding {
        index_id_object_store_data: u64::from(
            forensicnomicon_core::chromium_indexeddb::INDEX_ID_OBJECT_STORE_DATA,
        ),
        object_store_meta_type: forensicnomicon_core::chromium_indexeddb::OBJECT_STORE_META_TYPE,
        os_meta_name: forensicnomicon_core::chromium_indexeddb::OS_META_NAME,
    }
}

/// Global-metadata type byte introducing a `(origin, database name) ->
/// database id` index record (`kDatabaseNameTypeByte`).
pub const DATABASE_NAME_TYPE_BYTE: u8 = 201;

// ── Little-endian ints and database names ───────────────────────────────────

/// A minimal little-endian unsigned integer (IndexedDB `EncodeInt`): the
/// value of at most its first eight bytes.
pub open spec fn spec_le_int(data: Seq<u8>) -> u64 {
    if data.len() <= 8 {
        le_value(data) as u64
    } else {
        le_value(data.subrange(0, 8)) as u64
    }
}

/// A little-endian value of `s` is below `256^len`.
proof fn lemma_le_value_bound(s: Seq<u8>)
    ensures
        le_value(s) < pow256(s.len()),
    decreases s.len(),
{
    if s.len() > 0 {
        lemma_le_value_bound(s.drop_first());
    }
}

/// Decode a minimal little-endian unsigned integer (IndexedDB `EncodeInt`)
/// from at most the first eight bytes of `data`.
pub fn le_int(data: &[u8]) -> (v: u64)
    ensures
        v == spec_le_int(data@),
{
    let k: usize = if data.len() < 8 {
        data.len()
    } else {
        8
    };
    let mut v: u64 = 0;
    let mut i: usize = k;
    assert(data@.subrange(k as int, k as int) =~= Seq::<u8>::empty());
    while i > 0
        invariant
            k <= 8,
            k <= data@.len(),
            i <= k,
            v as nat == le_value(data@.subrange(i as int, k as int)),
        decreases i,
    {
        proof {
            lemma_le_value_bound(data@.subrange(i as int, k as int));
            crate::idb_prefix::lemma_pow256_small((k - i) as nat);
            assert(data@.subrange(i - 1, k as int).drop_first() =~= data@.subrange(
                i as int,
                k as int,
            ));
        }
        v = data[i - 1] as u64 + 256 * v;
        i = i - 1;
    }
    proof {
        if data@.len() <= 8 {
            assert(data@.subrange(0, k as int) =~= data@);
        }
    }
    v
}

/// The text of a UTF-16BE body.
pub open spec fn utf16be(body: Seq<u8>) -> Seq<char> {
    utf16_text(body, true).0
}

/// Decode a UTF-16 big-endian byte string (IndexedDB stores strings
/// big-endian). A dangling odd byte or an unpaired surrogate becomes U+FFFD;
/// never panics.
pub fn decode_utf16be(body: &[u8]) -> (s: String)
    ensures
        s@ == utf16be(body@),
{
    let (chars, _lossy) = decode_utf16(body, true);
    string_from_chars(&chars)
}

/// The database name of a `DatabaseNameKey` tail: the second of two
/// `StringWithLength`s (a varint count of UTF-16 units, then the units).
pub open spec fn spec_database_name_from_index(data: Seq<u8>) -> Option<Seq<char>> {
    match spec_read_varint(data, 0) {
        Some((origin_units, off)) => {
            let u = origin_units as usize;
            if u * 2 > usize::MAX || off + u * 2 > usize::MAX {
                None
            } else {
                match spec_read_varint(data, off + u * 2) {
                    Some((name_units, off2)) => {
                        let w = name_units as usize;
                        if w * 2 > usize::MAX || off2 + w * 2 > usize::MAX || off2 + w * 2
                            > data.len() {
                            None
                        } else {
                            Some(utf16be(data.subrange(off2, off2 + w * 2)))
                        }
                    },
                    None => None,
                }
            }
        },
        None => None,
    }
}

/// Read the database name (the second `StringWithLength`) from a
/// `DatabaseNameKey` tail: `origin(StringWithLength) + dbname(StringWithLength)`.
pub fn database_name_from_index(data: &[u8]) -> (r: Option<String>)
    ensures
        match r {
            Some(s) => spec_database_name_from_index(data@) == Some(s@),
            None => spec_database_name_from_index(data@) is None,
        },
{
    proof {
        crate::varint::lemma_varint_extent(data@, 0);
    }
    let (origin_units, off) = match read_varint(data, 0) {
        Some(x) => x,
        None => return None,
    };
    let u = origin_units as usize;
    let twice_u = match u.checked_mul(2) {
        Some(x) => x,
        None => return None,
    };
    let after_origin = match off.checked_add(twice_u) {
        Some(x) => x,
        None => return None,
    };
    proof {
        crate::varint::lemma_varint_extent(data@, after_origin as int);
    }
    let (name_units, off2) = match read_varint(data, after_origin) {
        Some(x) => x,
        None => return None,
    };
    let w = name_units as usize;
    let twice_w = match w.checked_mul(2) {
        Some(x) => x,
        None => return None,
    };
    let end = match off2.checked_add(twice_w) {
        Some(x) => x,
        None => return None,
    };
    if end > data.len() {
        return None;
    }
    let body = slice_subrange(data, off2, end);
    Some(decode_utf16be(body))
}


// ── Name resolution ─────────────────────────────────────────────────────────

/// The tail of a record key: what follows its `KeyPrefix`.
pub open spec fn key_tail(key: Seq<u8>, p: KeyPrefix) -> Seq<u8> {
    key.subrange(p.len as int, key.len() as int)
}

/// Whether a live record is a global `(origin, database name) -> database id`
/// index record: `KeyPrefix(0, 0, 0)` then `DATABASE_NAME_TYPE_BYTE`.
pub open spec fn is_database_name_record(r: Record) -> bool {
    match spec_key_prefix(r.key@) {
        Some(p) => {
            let tail = key_tail(r.key@, p);
            p.database_id == 0 && p.object_store_id == 0 && p.index_id == 0 && tail.len() > 0
                && tail[0] == 201
        },
        None => false,
    }
}

/// The `(database id, name)` a live database-name index record declares: the
/// id is the record value read as a little-endian int.
pub open spec fn database_entry(r: Record) -> Option<(u64, Seq<char>)> {
    if r.deleted || !is_database_name_record(r) {
        None
    } else {
        let p = spec_key_prefix(r.key@).unwrap();
        let tail = key_tail(r.key@, p);
        match spec_database_name_from_index(tail.subrange(1, tail.len() as int)) {
            Some(name) => Some((spec_le_int(r.value@), name)),
            None => None,
        }
    }
}

/// The `(database id, object store id, name)` a live object-store name record
/// declares: `KeyPrefix(db, 0, 0)`, `OBJECT_STORE_META_TYPE`, a varint object
/// store id, `OS_META_NAME`; the value is the UTF-16BE name.
pub open spec fn object_store_entry(r: Record) -> Option<(u64, u64, Seq<char>)> {
    if r.deleted || is_database_name_record(r) {
        None
    } else {
        match spec_key_prefix(r.key@) {
            Some(p) => {
                let tail = key_tail(r.key@, p);
                if p.object_store_id == 0 && p.index_id == 0 && tail.len() > 0 && tail[0] == 50 {
                    match spec_read_varint(tail, 1) {
                        Some((os_id, off)) => if off < tail.len() && tail[off] == 0 {
                            Some((p.database_id, os_id, utf16be(r.value@)))
                        } else {
                            None
                        },
                        None => None,
                    }
                } else {
                    None
                }
            },
            None => None,
        }
    }
}

/// Every database-name declaration in `recs`, in record order.
pub open spec fn database_entries(recs: Seq<Record>) -> Seq<(u64, Seq<char>)>
    decreases recs.len(),
{
    if recs.len() == 0 {
        Seq::empty()
    } else {
        database_entries(recs.drop_last()) + match database_entry(recs.last()) {
            Some(e) => seq![e],
            None => Seq::empty(),
        }
    }
}

/// Every object-store-name declaration in `recs`, in record order.
pub open spec fn object_store_entries(recs: Seq<Record>) -> Seq<(u64, u64, Seq<char>)>
    decreases recs.len(),
{
    if recs.len() == 0 {
        Seq::empty()
    } else {
        object_store_entries(recs.drop_last()) + match object_store_entry(recs.last()) {
            Some(e) => seq![e],
            None => Seq::empty(),
        }
    }
}

/// The first name declared for database `id`.
pub open spec fn first_database_name(es: Seq<(u64, Seq<char>)>, id: u64) -> Option<Seq<char>>
    decreases es.len(),
{
    if es.len() == 0 {
        None
    } else if es[0].0 == id {
        Some(es[0].1)
    } else {
        first_database_name(es.drop_first(), id)
    }
}

/// The first name declared for object store `os` of database `db`.
pub open spec fn first_object_store_name(es: Seq<(u64, u64, Seq<char>)>, db: u64, os: u64) -> Option<
    Seq<char>,
>
    decreases es.len(),
{
    if es.len() == 0 {
        None
    } else if es[0].0 == db && es[0].1 == os {
        Some(es[0].2)
    } else {
        first_object_store_name(es.drop_first(), db, os)
    }
}

/// The name of database `id` in a store: the first declared by a live
/// database-name record.
pub open spec fn database_name(recs: Seq<Record>, id: u64) -> Option<Seq<char>> {
    first_database_name(database_entries(recs), id)
}

/// The name of object store `os` of database `db` in a store: the first
/// declared by a live object-store-name record.
pub open spec fn object_store_name(recs: Seq<Record>, db: u64, os: u64) -> Option<Seq<char>> {
    first_object_store_name(object_store_entries(recs), db, os)
}

/// Whether an optional string is the optional text `t`.
pub open spec fn opt_text(s: Option<String>, t: Option<Seq<char>>) -> bool {
    match s {
        Some(x) => t == Some(x@),
        None => t is None,
    }
}

/// Adding a declaration at the end changes no name already declared, and
/// declares its own only for an id that had none.
proof fn lemma_first_database_name_push(es: Seq<(u64, Seq<char>)>, e: (u64, Seq<char>), id: u64)
    ensures
        first_database_name(es.push(e), id) == match first_database_name(es, id) {
            Some(n) => Some(n),
            None => if e.0 == id {
                Some(e.1)
            } else {
                None
            },
        },
    decreases es.len(),
{
    if es.len() > 0 {
        assert(es.push(e)[0] == es[0]);
        assert(es.push(e).drop_first() =~= es.drop_first().push(e));
        lemma_first_database_name_push(es.drop_first(), e, id);
        assert(first_database_name(es.push(e), id) == if es[0].0 == id {
            Some(es[0].1)
        } else {
            first_database_name(es.drop_first().push(e), id)
        });
    } else {
        let one = es.push(e);
        assert(one.drop_first() =~= Seq::<(u64, Seq<char>)>::empty());
        assert(one[0] == e);
        assert(first_database_name(one.drop_first(), id) is None);
    }
}

/// See [`lemma_first_database_name_push`].
proof fn lemma_first_object_store_name_push(
    es: Seq<(u64, u64, Seq<char>)>,
    e: (u64, u64, Seq<char>),
    db: u64,
    os: u64,
)
    ensures
        first_object_store_name(es.push(e), db, os) == match first_object_store_name(es, db, os) {
            Some(n) => Some(n),
            None => if e.0 == db && e.1 == os {
                Some(e.2)
            } else {
                None
            },
        },
    decreases es.len(),
{
    if es.len() > 0 {
        assert(es.push(e)[0] == es[0]);
        assert(es.push(e).drop_first() =~= es.drop_first().push(e));
        lemma_first_object_store_name_push(es.drop_first(), e, db, os);
        assert(first_object_store_name(es.push(e), db, os) == if es[0].0 == db && es[0].1 == os {
            Some(es[0].2)
        } else {
            first_object_store_name(es.drop_first().push(e), db, os)
        });
    } else {
        let one = es.push(e);
        assert(one.drop_first() =~= Seq::<(u64, u64, Seq<char>)>::empty());
        assert(one[0] == e);
        assert(first_object_store_name(one.drop_first(), db, os) is None);
    }
}

/// The key of object store `os` of database `db`: the pair packed into one
/// `u128`, database id in the high half.
pub open spec fn store_key(db: u64, os: u64) -> u128 {
    (db * 0x1_0000_0000_0000_0000 + os) as u128
}

/// Packing the pair loses nothing.
proof fn lemma_store_key_injective(d1: u64, o1: u64, d2: u64, o2: u64)
    ensures
        store_key(d1, o1) == store_key(d2, o2) ==> d1 == d2 && o1 == o2,
{
    assert(d1 * 0x1_0000_0000_0000_0000 + o1 < 0x1_0000_0000_0000_0000_0000_0000_0000_0000);
    assert(d2 * 0x1_0000_0000_0000_0000 + o2 < 0x1_0000_0000_0000_0000_0000_0000_0000_0000);
}

/// Whether a table holds, for each database id, exactly the first name the
/// declarations `es` give it.
pub open spec fn database_table(m: Map<u64, String>, es: Seq<(u64, Seq<char>)>) -> bool {
    forall|id: u64|
        #[trigger] first_database_name(es, id) == if m.contains_key(id) {
            Some(m[id]@)
        } else {
            None::<Seq<char>>
        }
}

/// Whether a table holds, for each object store, exactly the first name the
/// declarations `es` give it, keyed by [`store_key`].
pub open spec fn object_store_table(m: Map<u128, String>, es: Seq<(u64, u64, Seq<char>)>) -> bool {
    forall|db: u64, os: u64|
        #[trigger] first_object_store_name(es, db, os) == if m.contains_key(store_key(db, os)) {
            Some(m[store_key(db, os)]@)
        } else {
            None::<Seq<char>>
        }
}

/// The packed key of object store `os` of database `db`.
fn pack_store_key(db: u64, os: u64) -> (k: u128)
    ensures
        k == store_key(db, os),
{
    (db as u128) * 0x1_0000_0000_0000_0000u128 + (os as u128)
}

/// Name-resolution tables built from the metadata records in one pass: the
/// first name declared for an id wins.
struct Names {
    databases: HashMap<u64, String>,
    object_stores: HashMap<u128, String>,
}

impl Names {
    /// Collect the database and object-store names that `records` declare.
    fn resolve(records: &[Record]) -> (n: Names)
        ensures
            database_table(n.databases@, database_entries(records@)),
            object_store_table(n.object_stores@, object_store_entries(records@)),
    {
        broadcast use vstd::std_specs::hash::group_hash_axioms;
        let coding = idb_coding();
        let mut databases: HashMap<u64, String> = HashMap::new();
        let mut object_stores: HashMap<u128, String> = HashMap::new();
        let mut i: usize = 0;
        assert(database_table(databases@, database_entries(records@.subrange(0, 0))));
        assert(object_store_table(object_stores@, object_store_entries(records@.subrange(0, 0))));
        while i < records.len()
            invariant
                coding.object_store_meta_type == 50,
                coding.os_meta_name == 0,
                i <= records@.len(),
                database_table(databases@, database_entries(records@.subrange(0, i as int))),
                object_store_table(
                    object_stores@,
                    object_store_entries(records@.subrange(0, i as int)),
                ),
            decreases records@.len() - i,
        {
            let r = &records[i];
            let ghost pre = records@.subrange(0, i as int);
            let ghost post = records@.subrange(0, i + 1);
            assert(post.drop_last() =~= pre);
            assert(post.last() == *r);
            let ghost old_db = databases@;
            let ghost old_os = object_stores@;
            let ghost db_pre = database_entries(pre);
            let ghost os_pre = object_store_entries(pre);
            if !r.deleted {
                if let Some(prefix) = KeyPrefix::parse(r.key.as_slice()) {
                    let tail = slice_subrange(r.key.as_slice(), prefix.len, r.key.len());
                    if prefix.database_id == 0 && prefix.object_store_id == 0 && prefix.index_id
                        == 0 && tail.len() > 0 && tail[0] == DATABASE_NAME_TYPE_BYTE {
                        match database_name_from_index(slice_subrange(tail, 1, tail.len())) {
                            Some(name) => {
                                let db_id = le_int(r.value.as_slice());
                                let ghost e = (db_id, name@);
                                assert(database_entries(post) =~= db_pre.push(e));
                                if !databases.contains_key(&db_id) {
                                    databases.insert(db_id, name);
                                }
                                assert forall|id: u64|
                                    #[trigger] first_database_name(database_entries(post), id)
                                        == if databases@.contains_key(id) {
                                        Some(databases@[id]@)
                                    } else {
                                        None::<Seq<char>>
                                    } by {
                                    lemma_first_database_name_push(db_pre, e, id);
                                    assert(first_database_name(db_pre, id) == if old_db.contains_key(id) {
                                        Some(old_db[id]@)
                                    } else {
                                        None::<Seq<char>>
                                    });
                                }
                            },
                            None => {},
                        }
                    } else if prefix.object_store_id == 0 && prefix.index_id == 0 && tail.len() > 0
                        && tail[0] == coding.object_store_meta_type {
                        match read_varint(tail, 1) {
                            Some((os_id, off)) => {
                                if off < tail.len() && tail[off] == coding.os_meta_name {
                                    let key = pack_store_key(prefix.database_id, os_id);
                                    let ghost name = utf16be(r.value@);
                                    let ghost e = (prefix.database_id, os_id, name);
                                    assert(object_store_entries(post) =~= os_pre.push(e));
                                    if !object_stores.contains_key(&key) {
                                        let decoded = decode_utf16be(r.value.as_slice());
                                        object_stores.insert(key, decoded);
                                    }
                                    assert forall|db: u64, os: u64|
                                        #[trigger] first_object_store_name(
                                            object_store_entries(post),
                                            db,
                                            os,
                                        ) == if object_stores@.contains_key(store_key(db, os)) {
                                            Some(object_stores@[store_key(db, os)]@)
                                        } else {
                                            None::<Seq<char>>
                                        } by {
                                        lemma_first_object_store_name_push(os_pre, e, db, os);
                                        lemma_store_key_injective(db, os, prefix.database_id, os_id);
                                        assert(first_object_store_name(os_pre, db, os) == if old_os.contains_key(
                                            store_key(db, os),
                                        ) {
                                            Some(old_os[store_key(db, os)]@)
                                        } else {
                                            None::<Seq<char>>
                                        });
                                    }
                                } else {
                                    assert(object_store_entries(post) =~= os_pre);
                                }
                            },
                            None => {
                                assert(object_store_entries(post) =~= os_pre);
                            },
                        }
                    }
                }
            }
            i = i + 1;
        }
        assert(records@.subrange(0, records@.len() as int) =~= records@);
        Names { databases, object_stores }
    }

    /// The name the table holds for database `db_id`.
    fn database(&self, db_id: u64) -> (r: Option<String>)
        ensures
            opt_text(
                r,
                if self.databases@.contains_key(db_id) {
                    Some(self.databases@[db_id]@)
                } else {
                    None::<Seq<char>>
                },
            ),
    {
        broadcast use vstd::std_specs::hash::group_hash_axioms;
        match self.databases.get(&db_id) {
            Some(name) => Some(name.clone()),
            None => None,
        }
    }

    /// The name the table holds for object store `os_id` of database `db_id`.
    fn object_store(&self, db_id: u64, os_id: u64) -> (r: Option<String>)
        ensures
            opt_text(
                r,
                if self.object_stores@.contains_key(store_key(db_id, os_id)) {
                    Some(self.object_stores@[store_key(db_id, os_id)]@)
                } else {
                    None::<Seq<char>>
                },
            ),
    {
        broadcast use vstd::std_specs::hash::group_hash_axioms;
        let key = pack_store_key(db_id, os_id);
        match self.object_stores.get(&key) {
            Some(name) => Some(name.clone()),
            None => None,
        }
    }
}


// ── Records ─────────────────────────────────────────────────────────────────

/// One decoded IndexedDB object-store data record.
#[derive(Clone, Debug, PartialEq)]
pub struct IndexedDbRecord {
    /// The database id from the record's `KeyPrefix`.
    pub database_id: u64,
    /// The object-store id from the record's `KeyPrefix`.
    pub object_store_id: u64,
    /// The database name, resolved from the global database-name index.
    pub database: Option<String>,
    /// The object-store name, resolved from its metadata record.
    pub object_store: Option<String>,
    /// The decoded primary key.
    pub key: IdbKey,
    /// The decoded record value (a V8 value, or raw bytes and the error).
    pub value: RecordValue,
    /// LevelDB sequence number.
    pub seq: u64,
    /// `true` if this record is a deletion tombstone.
    pub deleted: bool,
}

/// Whether a record is an object-store data record: its key opens with a
/// `KeyPrefix` whose index id is 1.
pub open spec fn is_data_record(r: Record) -> bool {
    spec_key_prefix(r.key@) matches Some(p) && p.index_id == 1
}

/// The object-store data records of `recs`, in order.
pub open spec fn data_records(recs: Seq<Record>) -> Seq<Record>
    decreases recs.len(),
{
    if recs.len() == 0 {
        Seq::empty()
    } else {
        data_records(recs.drop_last()) + if is_data_record(recs.last()) {
            seq![recs.last()]
        } else {
            Seq::empty()
        }
    }
}

/// The object-store data records of a store are exactly its records whose
/// `KeyPrefix` index id is 1, in order: a record with any other index id
/// (an exists entry, an index row) or no prefix yields nothing.
pub proof fn lemma_data_records_are_index_one(recs: Seq<Record>)
    ensures
        data_records(recs) == recs.filter(
            |r: Record| spec_key_prefix(r.key@) matches Some(p) && p.index_id == 1,
        ),
        forall|i: int|
            0 <= i < data_records(recs).len() ==> (spec_key_prefix(
                #[trigger] data_records(recs)[i].key@,
            ) matches Some(p) && p.index_id == 1),
    decreases recs.len(),
{
    reveal(Seq::filter);
    let pred = |r: Record| spec_key_prefix(r.key@) matches Some(p) && p.index_id == 1;
    if recs.len() > 0 {
        lemma_data_records_are_index_one(recs.drop_last());
        assert(pred(recs.last()) == is_data_record(recs.last()));
        let sub = recs.drop_last().filter(pred);
        assert(recs.filter(pred) == if pred(recs.last()) {
            sub.push(recs.last())
        } else {
            sub
        });
        assert(sub + seq![recs.last()] =~= sub.push(recs.last()));
        assert(sub + Seq::<Record>::empty() =~= sub);
    } else {
        assert(recs.filter(pred) == recs);
    }
    assert(data_records(recs) =~= recs.filter(pred));
    assert forall|i: int| 0 <= i < data_records(recs).len() implies (spec_key_prefix(
        #[trigger] data_records(recs)[i].key@,
    ) matches Some(p) && p.index_id == 1) by {
        recs.lemma_filter_pred(pred, i);
    }
}

/// Whether `o` is what data record `r` of the store `all` decodes to: its
/// prefix ids, its database and object-store names as the store's metadata
/// declares them, its decoded key, its decoded value, its sequence number and
/// tombstone flag.
pub open spec fn record_decodes_to(all: Seq<Record>, r: Record, o: IndexedDbRecord) -> bool {
    let p = spec_key_prefix(r.key@).unwrap();
    &&& o.database_id == p.database_id
    &&& o.object_store_id == p.object_store_id
    &&& opt_text(o.database, database_name(all, p.database_id))
    &&& opt_text(o.object_store, object_store_name(all, p.database_id, p.object_store_id))
    &&& key_view(o.key) == decode_key_spec(key_tail(r.key@, p))
    &&& value_decodes_to(r.value@, o.value)
    &&& o.seq == r.seq
    &&& o.deleted == r.deleted
}

/// Decode IndexedDB object-store data records from raw LevelDB records.
///
/// A first pass resolves database and object-store names from their metadata
/// records; a second decodes every object-store data record (index id 1), in
/// order, one output per data record.
pub fn decode_records(records: &[Record]) -> (out: Vec<IndexedDbRecord>)
    ensures
        out@.len() == data_records(records@).len(),
        forall|i: int|
            0 <= i < out@.len() ==> record_decodes_to(
                records@,
                data_records(records@)[i],
                #[trigger] out@[i],
            ),
{
    let coding = idb_coding();
    let names = Names::resolve(records);
    let mut out: Vec<IndexedDbRecord> = Vec::new();
    let mut i: usize = 0;
    while i < records.len()
        invariant
            coding.index_id_object_store_data == 1,
            database_table(names.databases@, database_entries(records@)),
            object_store_table(names.object_stores@, object_store_entries(records@)),
            i <= records@.len(),
            out@.len() == data_records(records@.subrange(0, i as int)).len(),
            forall|k: int|
                0 <= k < out@.len() ==> record_decodes_to(
                    records@,
                    data_records(records@.subrange(0, i as int))[k],
                    #[trigger] out@[k],
                ),
        decreases records@.len() - i,
    {
        let r = &records[i];
        let ghost pre = records@.subrange(0, i as int);
        let ghost post = records@.subrange(0, i + 1);
        assert(post.drop_last() =~= pre);
        assert(post.last() == *r);
        if let Some(prefix) = KeyPrefix::parse(r.key.as_slice()) {
            if prefix.index_id == coding.index_id_object_store_data {
                let tail = slice_subrange(r.key.as_slice(), prefix.len, r.key.len());
                let key = IdbKey::decode(tail);
                let value = decode_value(r.value.as_slice());
                let rec = IndexedDbRecord {
                    database_id: prefix.database_id,
                    object_store_id: prefix.object_store_id,
                    database: names.database(prefix.database_id),
                    object_store: names.object_store(prefix.database_id, prefix.object_store_id),
                    key,
                    value,
                    seq: r.seq,
                    deleted: r.deleted,
                };
                assert(record_decodes_to(records@, *r, rec));
                out.push(rec);
                assert(data_records(post) =~= data_records(pre).push(*r));
                assert forall|k: int| 0 <= k < out@.len() implies record_decodes_to(
                    records@,
                    data_records(post)[k],
                    #[trigger] out@[k],
                ) by {
                    if k < out@.len() - 1 {
                        assert(data_records(post)[k] == data_records(pre)[k]);
                    }
                }
            } else {
                assert(data_records(post) =~= data_records(pre));
            }
        } else {
            assert(data_records(post) =~= data_records(pre));
        }
        i = i + 1;
    }
    assert(records@.subrange(0, records@.len() as int) =~= records@);
    out
}

} // verus!

//! Tests for the IndexedDB name resolution, value decoding and analyzer.

use blob_decoder::v8_value::V8Value;
use chromium_storage_forensic::idb_analysis::{analyze, analyze_record, IdbAnomalyKind};
use chromium_storage_forensic::idb_prefix::be_uint;
use chromium_storage_forensic::indexeddb::{database_name_from_index, decode_records, le_int};
use chromium_storage_forensic::{Category, IdbKey, Record, RecordValue, Severity};

fn rec(key: &[u8], value: &[u8]) -> Record {
    Record {
        key: key.to_vec(),
        value: value.to_vec(),
        seq: 7,
        deleted: false,
    }
}

fn utf16be(s: &str) -> Vec<u8> {
    s.encode_utf16().flat_map(|u| u.to_be_bytes()).collect()
}

/// A global database-name index record naming database `id`.
fn database_name_record(origin: &str, name: &str, id: u8) -> Record {
    let mut key = vec![0x00, 0x00, 0x00, 0x00, 201];
    key.push(origin.encode_utf16().count() as u8);
    key.extend_from_slice(&utf16be(origin));
    key.push(name.encode_utf16().count() as u8);
    key.extend_from_slice(&utf16be(name));
    rec(&key, &[id])
}

/// An object-store name record for store `os` of database `db`.
fn object_store_name_record(db: u8, os: u8, name: &str) -> Record {
    rec(&[0x00, db, 0x00, 0x00, 50, os, 0x00], &utf16be(name))
}

/// A data record of store (1, 1) with string key "note-1".
fn data_record(value: &[u8]) -> Record {
    let mut key = vec![0x00, 0x01, 0x01, 0x01, 0x01, 0x06];
    key.extend_from_slice(&utf16be("note-1"));
    rec(&key, value)
}

/// A Blink-wrapped V8 `true`, behind a wrapper-version varint.
const TRUE_VALUE: [u8; 6] = [0x02, 0xFF, 0x14, 0xFF, 0x0F, b'T'];

#[test]
fn resolves_database_and_object_store_names_from_metadata() {
    let out = decode_records(&[
        database_name_record("http://o", "mintdb", 1),
        object_store_name_record(1, 1, "notes"),
        data_record(&TRUE_VALUE),
    ]);
    assert_eq!(out.len(), 1);
    assert_eq!(out[0].database.as_deref(), Some("mintdb"));
    assert_eq!(out[0].object_store.as_deref(), Some("notes"));
    assert_eq!(out[0].key, IdbKey::String("note-1".to_owned()));
    assert_eq!(out[0].value, RecordValue::V8(V8Value::Bool(true)));
    assert_eq!((out[0].database_id, out[0].object_store_id), (1, 1));
    assert_eq!((out[0].seq, out[0].deleted), (7, false));
    assert!(analyze(&out).is_empty(), "a resolved, decoded record is clean");
}

#[test]
fn the_first_declared_name_wins_and_tombstones_declare_nothing() {
    let mut dead = object_store_name_record(1, 1, "deleted");
    dead.deleted = true;
    let out = decode_records(&[
        dead,
        database_name_record("http://o", "first", 1),
        database_name_record("http://o", "second", 1),
        object_store_name_record(1, 1, "notes"),
        object_store_name_record(1, 1, "later"),
        data_record(&TRUE_VALUE),
    ]);
    assert_eq!(out[0].database.as_deref(), Some("first"));
    assert_eq!(out[0].object_store.as_deref(), Some("notes"));
}

#[test]
fn an_undecodable_orphan_yields_both_findings() {
    let out = decode_records(&[data_record(&[0x05, 0xff, 0xff])]);
    let (raw, error) = match &out[0].value {
        RecordValue::Undecoded { raw, error } => (raw.clone(), error.clone()),
        other => panic!("expected Undecoded, got {other:?}"),
    };
    assert_eq!(raw, vec![0xff, 0xff], "the bytes after the wrapper varint");
    assert!(!error.is_empty());
    let found = analyze_record(&out[0]);
    let kinds: Vec<IdbAnomalyKind> = found.iter().map(|f| f.kind.clone()).collect();
    assert_eq!(
        kinds,
        vec![
            IdbAnomalyKind::ValueUndecodable {
                database_id: 1,
                object_store_id: 1,
                error: error.clone()
            },
            IdbAnomalyKind::OrphanedRecord {
                database_id: 1,
                object_store_id: 1,
                database_resolved: false,
                object_store_resolved: false
            }
        ]
    );
    assert_eq!(found[0].severity(), Severity::Medium);
    assert_eq!(found[1].severity(), Severity::Low);
    assert_eq!(found[0].code(), "IDB-VALUE-UNDECODABLE");
    assert_eq!(found[1].code(), "IDB-RECORD-ORPHANED");
    assert_eq!(found[1].category(), Category::Integrity);
    assert_eq!(
        found[0].note(),
        format!("IndexedDB value (database 1, object store 1) could not be decoded from the Blink V8 structured-clone format: {error} \u{2014} consistent with a truncated, corrupted, or tampered value")
    );
    assert_eq!(
        found[1].note(),
        "IndexedDB record (database 1, object store 1) resolves neither the database nor the object-store name in the store's metadata index \u{2014} consistent with an orphaned record whose metadata row is missing"
    );
}

#[test]
fn a_record_missing_only_its_store_name_is_orphaned() {
    let out = decode_records(&[
        database_name_record("http://o", "mintdb", 1),
        data_record(&TRUE_VALUE),
    ]);
    let found = analyze(&out);
    assert_eq!(found.len(), 1);
    assert_eq!(
        found[0].kind,
        IdbAnomalyKind::OrphanedRecord {
            database_id: 1,
            object_store_id: 1,
            database_resolved: true,
            object_store_resolved: false
        }
    );
    assert!(found[0].note().contains("resolves the object-store name in"));
}

#[test]
fn little_endian_ints_read_at_most_eight_bytes() {
    assert_eq!(le_int(&[]), 0);
    assert_eq!(le_int(&[0x01, 0x02]), 0x0201);
    assert_eq!(le_int(&[1, 0, 0, 0, 0, 0, 0, 0x80, 0xFF]), 0x8000_0000_0000_0001);
}

#[test]
fn a_database_name_is_the_second_string_of_the_index_key() {
    let mut tail = vec![1];
    tail.extend_from_slice(&utf16be("o"));
    tail.push(2);
    tail.extend_from_slice(&utf16be("db"));
    assert_eq!(database_name_from_index(&tail).as_deref(), Some("db"));
    tail.pop();
    assert_eq!(database_name_from_index(&tail), None, "a truncated name is no name");
}

#[test]
fn an_unpaired_surrogate_and_a_dangling_byte_become_replacement_chars() {
    let name = database_name_from_index(&[0, 2, 0xD8, 0x00, 0x00, b'a']);
    assert_eq!(name.as_deref(), Some("\u{FFFD}a"));
    let mut odd = object_store_name_record(1, 1, "a");
    odd.value.push(0x62);
    let out = decode_records(&[odd, data_record(&TRUE_VALUE)]);
    assert_eq!(out[0].object_store.as_deref(), Some("a\u{FFFD}"));
}

/// A store as Chrome writes one: the database-name index, the object-store
/// name, and one data record whose value decodes. It stands in for a minted
/// store.
fn records() -> Vec<chromium_storage_forensic::IndexedDbRecord> {
    let out = decode_records(&[
        database_name_record("http://127.0.0.1:8731", "mintdb", 1),
        object_store_name_record(1, 1, "notes"),
        data_record(&TRUE_VALUE),
    ]);
    assert!(analyze(&out).is_empty(), "a well-formed store exhibits no anomaly");
    out
}

#[test]
fn an_undecodable_value_is_caught() {
    let mut recs = records();
    let target = recs
        .iter_mut()
        .find(|r| matches!(r.value, RecordValue::V8(_)))
        .expect("a decoded V8 value to corrupt");
    target.value = RecordValue::Undecoded {
        raw: vec![0xDE, 0xAD],
        error: "injected: truncated structured-clone stream".to_owned(),
    };
    let findings = analyze(&recs);
    assert!(
        findings
            .iter()
            .any(|f| matches!(f.kind, IdbAnomalyKind::ValueUndecodable { .. })),
        "an undecodable value must trip the decode-integrity check"
    );
}

#[test]
fn an_orphaned_record_is_caught() {
    let mut recs = records();
    recs[0].object_store = None;
    let findings = analyze(&recs);
    assert!(
        findings
            .iter()
            .any(|f| matches!(f.kind, IdbAnomalyKind::OrphanedRecord { .. })),
        "a record with an unresolved object-store name must trip the orphan check"
    );
}

#[test]
fn a_wide_key_prefix_reads_multi_byte_big_endian_ids() {
    // Descriptor 0b001_001_01: two-byte database, object-store and index ids.
    let key = [0x25, 0x01, 0x02, 0x00, 0x03, 0x00, 0x01, 0x00];
    let out = decode_records(&[rec(&key, &TRUE_VALUE)]);
    assert_eq!(out.len(), 1);
    assert_eq!((out[0].database_id, out[0].object_store_id), (0x0102, 3));
    assert_eq!(out[0].key, IdbKey::Null);
    // One byte short of the declared index id: no prefix, so no data record.
    assert!(decode_records(&[rec(&key[..6], &TRUE_VALUE)]).is_empty());
}

#[test]
fn big_endian_ints_keep_their_low_64_bits() {
    let data = [1u8, 2, 3, 4, 5, 6, 7, 8, 9];
    assert_eq!(be_uint(&data, 0, 2), Some(0x0102));
    assert_eq!(be_uint(&data, 0, 0), Some(0));
    assert_eq!(be_uint(&data, 0, 9), Some(0x0203_0405_0607_0809));
    assert_eq!(be_uint(&data, 8, 2), None);
    assert_eq!(be_uint(&data, usize::MAX, 2), None);
}

//! Tests for the Local Storage value decoding and analyzer.

use chromium_storage_forensic::localstorage::{decode_records, latin1, parse_meta_protobuf};
use chromium_storage_forensic::ls_analysis::{analyze, LsAnomalyKind};
use chromium_storage_forensic::varint::read_varint;
use chromium_storage_forensic::{Category, Encoding, LocalStorageRecord, Record, Severity, StorageValue};

fn rec(key: &[u8], value: &[u8]) -> Record {
    Record {
        key: key.to_vec(),
        value: value.to_vec(),
        seq: 3,
        deleted: false,
    }
}

fn value(text: &str) -> StorageValue {
    StorageValue {
        text: text.to_owned(),
        raw: text.as_bytes().to_vec(),
        encoding: Encoding::Latin1,
        lossy: false,
    }
}

fn meta(origin: &str, ts: u64, deleted: bool) -> LocalStorageRecord {
    LocalStorageRecord::Meta {
        origin: origin.to_owned(),
        timestamp_webkit_micros: ts,
        size: None,
        seq: 1,
        deleted,
    }
}

fn data(origin: &str, deleted: bool) -> LocalStorageRecord {
    LocalStorageRecord::Data {
        origin: origin.to_owned(),
        script_key: value("k"),
        value: value("v"),
        seq: 2,
        deleted,
    }
}

const GENUINE_TS: u64 = 13_300_000_000_000_000;

#[test]
fn a_consistent_store_is_clean() {
    let recs = vec![meta("https://a", GENUINE_TS, false), data("https://a", false)];
    assert!(analyze(&recs).is_empty());
}

#[test]
fn an_implausible_meta_timestamp_is_caught_with_its_note() {
    let recs = vec![meta("https://a", 1, false), data("https://a", false)];
    let found = analyze(&recs);
    assert_eq!(found.len(), 1);
    assert_eq!(
        found[0].kind,
        LsAnomalyKind::ImplausibleMetaTimestamp {
            origin: "https://a".to_owned(),
            timestamp_webkit_micros: 1
        }
    );
    assert_eq!(found[0].severity(), Severity::Medium);
    assert_eq!(found[0].category(), Category::History);
    assert_eq!(found[0].code(), "LS-META-TIME-IMPLAUSIBLE");
    assert_eq!(
        found[0].note(),
        "Local Storage META for origin https://a records a last-modified time of 1 WebKit \u{b5}s, earlier than the format could have written (before 2010) \u{2014} consistent with a zeroed or edited timestamp"
    );
}

#[test]
fn orphaned_data_is_caught_and_a_tombstoned_meta_does_not_vouch() {
    let recs = vec![meta("https://a", GENUINE_TS, true), data("https://a", false)];
    let found = analyze(&recs);
    assert_eq!(found.len(), 1);
    assert_eq!(
        found[0].kind,
        LsAnomalyKind::OrphanedData {
            origin: "https://a".to_owned()
        }
    );
    assert_eq!(found[0].severity(), Severity::Low);
    assert_eq!(found[0].category(), Category::Integrity);
    assert_eq!(found[0].code(), "LS-DATA-ORPHANED");
    assert_eq!(
        found[0].note(),
        "Local Storage DATA exists for origin https://a with no META record \u{2014} consistent with a deleted metadata row or a partially recovered store"
    );
}

#[test]
fn housekeeping_rows_and_tombstones_are_never_graded() {
    let mut recs = vec![meta("https://a", GENUINE_TS, false), data("https://a", false)];
    recs.push(LocalStorageRecord::Other {
        key: b"VERSION".to_vec(),
        seq: 9,
        deleted: false,
    });
    recs.push(meta("https://b", 0, true));
    recs.push(data("https://c", true));
    assert!(analyze(&recs).is_empty());
}

#[test]
fn every_record_is_kept_in_order() {
    let mut gone = rec(b"META:https://a", b"");
    gone.deleted = true;
    let out = decode_records(&[rec(b"VERSION", b"1"), gone, rec(b"_https://a", b"")]);
    assert_eq!(out.len(), 3);
    assert!(matches!(out[1], LocalStorageRecord::Meta { deleted: true, timestamp_webkit_micros: 0, .. }));
    // A data key without a NUL separator is surfaced raw.
    assert!(matches!(&out[2], LocalStorageRecord::Other { key, seq: 3, .. } if key == b"_https://a"));
}

#[test]
fn a_meta_record_needs_the_timestamp_first() {
    assert_eq!(parse_meta_protobuf(&[0x08, 0x05]), Some((5, None)));
    assert_eq!(parse_meta_protobuf(&[0x08, 0x05, 0x18, 0x01]), Some((5, None)));
    assert_eq!(parse_meta_protobuf(&[0x10, 0x05, 0x08, 0x01]), None);
    assert_eq!(parse_meta_protobuf(&[]), None);
    let out = decode_records(&[rec(b"META:https://a", &[0x10, 0x01])]);
    assert!(matches!(out[0], LocalStorageRecord::Other { .. }));
}

#[test]
fn latin1_maps_each_byte_to_its_code_point() {
    assert_eq!(latin1(&[0x68, 0xE9, 0xFF]), "h\u{e9}\u{ff}");
}

#[test]
fn a_lone_surrogate_or_dangling_byte_is_lossy() {
    let mut key = b"_o\x00".to_vec();
    key.extend_from_slice(&[0x01, b'k']);
    let out = decode_records(&[
        rec(&key, &[0x00, 0x00, 0xD8, b'a', 0x00]),
        rec(&key, &[0x00, b'a', 0x00, b'b']),
        rec(&key, &[0x00, 0x3D, 0xD8, 0x00, 0xDE]),
    ]);
    let texts: Vec<(String, bool)> = out
        .iter()
        .map(|r| match r {
            LocalStorageRecord::Data { value, .. } => (value.text.clone(), value.lossy),
            other => panic!("expected Data, got {other:?}"),
        })
        .collect();
    assert_eq!(
        texts,
        vec![
            ("\u{FFFD}a".to_owned(), true),
            ("a\u{FFFD}".to_owned(), true),
            ("\u{1F600}".to_owned(), false),
        ]
    );
}

/// A store as Chrome writes one: `VERSION`, a per-origin `META` with a
/// genuine timestamp, and two data rows for that origin. It stands in for a
/// minted store.
fn records() -> Vec<LocalStorageRecord> {
    let mut greeting = b"_http://127.0.0.1:8731\x00\x01".to_vec();
    greeting.extend_from_slice(b"greeting");
    let out = decode_records(&[
        rec(b"VERSION", b"1"),
        rec(b"META:http://127.0.0.1:8731", &[0x08, 0x80, 0x80, 0x80, 0x80, 0x80, 0x80, 0xE0, 0x17, 0x10, 0x2A]),
        rec(&greeting, b"\x01hello"),
    ]);
    assert!(analyze(&out).is_empty(), "a well-formed store exhibits no anomaly");
    out
}

#[test]
fn an_implausible_meta_timestamp_is_caught() {
    let mut recs = records();
    let meta = recs
        .iter_mut()
        .find_map(|r| match r {
            LocalStorageRecord::Meta {
                timestamp_webkit_micros,
                deleted: false,
                ..
            } => Some(timestamp_webkit_micros),
            _ => None,
        })
        .expect("a live META record to backdate");
    *meta = 1; // WebKit µs of ~1601: impossible for this format.
    let findings = analyze(&recs);
    assert!(
        findings
            .iter()
            .any(|f| matches!(f.kind, LsAnomalyKind::ImplausibleMetaTimestamp { .. })),
        "a pre-2010 META timestamp must trip the timeline check"
    );
}

#[test]
fn orphaned_data_is_caught() {
    let mut recs = records();
    recs.push(LocalStorageRecord::Data {
        origin: "https://orphan.example".to_owned(),
        script_key: value("k"),
        value: value("v"),
        seq: 9999,
        deleted: false,
    });
    let findings = analyze(&recs);
    assert!(
        findings
            .iter()
            .any(|f| matches!(&f.kind, LsAnomalyKind::OrphanedData { origin } if origin == "https://orphan.example")),
        "a DATA row with no META must trip the orphan check"
    );
}

#[test]
fn housekeeping_other_keys_are_not_flagged() {
    let mut recs = records();
    recs.push(LocalStorageRecord::Other {
        key: b"VERSION".to_vec(),
        seq: 9999,
        deleted: false,
    });
    assert!(
        analyze(&recs).is_empty(),
        "housekeeping Other keys must not be treated as anomalies"
    );
}

#[test]
fn an_unknown_marker_keeps_its_bytes_as_lossy_utf8_text() {
    let mut key = b"_o\x00".to_vec();
    key.extend_from_slice(&[0x01, b'k']);
    let out = decode_records(&[rec(&key, &[0x7F, 0xFF, b'a'])]);
    match &out[0] {
        LocalStorageRecord::Data { value, .. } => {
            assert_eq!(value.text, "\u{7f}\u{FFFD}a");
            assert_eq!(value.encoding, Encoding::Unknown(0x7F));
            assert!(value.lossy);
        }
        other => panic!("expected Data, got {other:?}"),
    }
}

#[test]
fn a_varint_overflowing_u64_reads_as_none() {
    let mut max = vec![0xFF; 9];
    max.push(0x01);
    assert_eq!(read_varint(&max, 0), Some((u64::MAX, 10)));
    let mut over = vec![0x80; 9];
    over.push(0x02);
    assert_eq!(read_varint(&over, 0), None, "2^64 does not fit a u64");
    assert_eq!(read_varint(&[0x80; 10], 0), None, "an eleventh group is needed");
    assert_eq!(read_varint(&[0x96, 0x01], 0), Some((150, 2)));
    // A META size that overflows is absent, not wrapped.
    let mut meta = vec![0x08, 0x05, 0x10];
    meta.extend_from_slice(&over);
    assert_eq!(parse_meta_protobuf(&meta), Some((5, None)));
}

//! Tests for the Local Storage reader.

use chromium_storage_forensic::localstorage::decode_records;
use chromium_storage_forensic::{Encoding, LocalStorageRecord, Record};

fn rec(key: &[u8], value: &[u8]) -> Record {
    Record {
        key: key.to_vec(),
        value: value.to_vec(),
        seq: 1,
        deleted: false,
    }
}

#[test]
fn data_record_utf16le_value() {
    // key: "_" + origin + NUL + <0x00 utf16le "k">, value: <0x00 utf16le "hi">
    let mut key = b"_http://ex.com\x00".to_vec();
    key.push(0x00); // UTF-16LE marker for the script key
    key.extend_from_slice(&[b'k', 0]);
    let value = [0x00u8, b'h', 0, b'i', 0].to_vec();
    let out = decode_records(&[rec(&key, &value)]);
    match &out[0] {
        LocalStorageRecord::Data {
            origin,
            script_key,
            value,
            ..
        } => {
            assert_eq!(origin, "http://ex.com");
            assert_eq!(script_key.text, "k");
            assert_eq!(value.text, "hi");
            assert_eq!(value.encoding, Encoding::Utf16Le);
            assert!(!value.lossy);
        }
        other => panic!("expected Data, got {other:?}"),
    }
}

#[test]
fn data_record_latin1_value() {
    let mut key = b"_http://ex.com\x00".to_vec();
    key.push(0x01);
    key.extend_from_slice(b"key");
    let value = [0x01u8, b'v', b'a', b'l'].to_vec();
    let out = decode_records(&[rec(&key, &value)]);
    match &out[0] {
        LocalStorageRecord::Data {
            script_key, value, ..
        } => {
            assert_eq!(script_key.text, "key");
            assert_eq!(value.text, "val");
            assert_eq!(value.encoding, Encoding::Latin1);
        }
        other => panic!("expected Data, got {other:?}"),
    }
}

#[test]
fn deletion_tombstone_keeps_empty_value() {
    let mut key = b"_http://ex.com\x00".to_vec();
    key.push(0x01);
    key.extend_from_slice(b"gone");
    let mut r = rec(&key, b"");
    r.deleted = true;
    let out = decode_records(&[r]);
    match &out[0] {
        LocalStorageRecord::Data { value, deleted, .. } => {
            assert!(*deleted);
            assert_eq!(value.encoding, Encoding::Empty);
        }
        other => panic!("expected Data tombstone, got {other:?}"),
    }
}

#[test]
fn meta_record_parses_timestamp_and_size() {
    // StorageMetadata protobuf: field 1 (tag 0x08) = ts varint, field 2 (0x10) = size.
    let value = [0x08u8, 0xAC, 0x02, 0x10, 0x05].to_vec();
    let out = decode_records(&[rec(b"META:http://ex.com", &value)]);
    match &out[0] {
        LocalStorageRecord::Meta {
            origin,
            timestamp_webkit_micros,
            size,
            ..
        } => {
            assert_eq!(origin, "http://ex.com");
            assert_eq!(*timestamp_webkit_micros, 300);
            assert_eq!(*size, Some(5));
        }
        other => panic!("expected Meta, got {other:?}"),
    }
}

#[test]
fn version_key_is_other() {
    let out = decode_records(&[rec(b"VERSION", b"1")]);
    assert!(matches!(out[0], LocalStorageRecord::Other { .. }));
}

#[test]
fn unknown_marker_is_lossy_but_never_panics() {
    let mut key = b"_http://ex.com\x00".to_vec();
    key.push(0x01);
    key.extend_from_slice(b"k");
    let value = [0x7Fu8, 0xDE, 0xAD].to_vec(); // marker 0x7F is not 0x00/0x01
    let out = decode_records(&[rec(&key, &value)]);
    match &out[0] {
        LocalStorageRecord::Data { value, .. } => {
            assert!(value.lossy);
            assert_eq!(value.encoding, Encoding::Unknown(0x7F));
            assert_eq!(value.raw, vec![0x7F, 0xDE, 0xAD]);
        }
        other => panic!("expected Data, got {other:?}"),
    }
}

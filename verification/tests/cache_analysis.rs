//! Tests for the Simple Cache analyzer and the reader's message rendering.

use chromium_storage_forensic::cache_analysis::{analyze, CacheAnomaly, CacheAnomalyKind};
use chromium_storage_forensic::cache_entry::carve_url;
use chromium_storage_forensic::{parse_entry, CacheEntry, Category, Severity};
use sha2::Digest;

fn entry() -> CacheEntry {
    CacheEntry {
        key: "abc".to_owned(),
        url: "abc".to_owned(),
        key_hash: 0,
        version: 5,
        status_line: None,
        headers: Vec::new(),
        body: b"123456789".to_vec(),
        body_crc32: None,
        request_time_webkit_micros: None,
        response_time_webkit_micros: None,
        key_sha256: None,
    }
}

/// SHA-256("abc").
const ABC_SHA256: [u8; 32] = [
    0xba, 0x78, 0x16, 0xbf, 0x8f, 0x01, 0xcf, 0xea, 0x41, 0x41, 0x40, 0xde, 0x5d, 0xae, 0x22,
    0x23, 0xb0, 0x03, 0x61, 0xa3, 0x96, 0x17, 0x7a, 0x9c, 0xb4, 0x10, 0xff, 0x61, 0xf2, 0x00,
    0x15, 0xad,
];

fn kinds(found: &[CacheAnomaly]) -> Vec<CacheAnomalyKind> {
    found.iter().map(|f| f.kind.clone()).collect()
}

#[test]
fn an_entry_carrying_no_integrity_fields_has_nothing_to_contradict() {
    assert!(analyze(&entry()).is_empty());
}

#[test]
fn matching_crc_and_key_digest_are_clean() {
    let mut e = entry();
    e.body_crc32 = Some(0xCBF4_3926); // CRC-32("123456789")
    e.key_sha256 = Some(ABC_SHA256);
    e.request_time_webkit_micros = Some(500);
    e.response_time_webkit_micros = Some(500);
    assert!(analyze(&e).is_empty());
}

#[test]
fn a_wrong_body_crc_reports_both_values() {
    let mut e = entry();
    e.body_crc32 = Some(0);
    let found = analyze(&e);
    assert_eq!(
        kinds(&found),
        vec![CacheAnomalyKind::BodyCrc32Mismatch {
            stored: 0,
            computed: 0xCBF4_3926
        }]
    );
    assert_eq!(found[0].severity(), Severity::High);
    assert_eq!(found[0].category(), Category::Integrity);
    assert_eq!(found[0].code(), "CACHE-BODY-CRC-MISMATCH");
    assert_eq!(
        found[0].note(),
        "response body CRC-32 mismatch: trailer recorded 0x00000000, recomputed 0xcbf43926 \u{2014} consistent with the body having been edited after storage"
    );
}

#[test]
fn a_mismatched_key_digest_is_caught() {
    let mut e = entry();
    e.key_sha256 = Some([0xAB; 32]);
    let found = analyze(&e);
    assert_eq!(kinds(&found), vec![CacheAnomalyKind::KeySha256Mismatch]);
    assert_eq!(found[0].code(), "CACHE-KEY-SHA256-MISMATCH");
    assert_eq!(found[0].severity(), Severity::High);
}

#[test]
fn a_response_before_its_request_is_caught() {
    let mut e = entry();
    e.request_time_webkit_micros = Some(1_000);
    e.response_time_webkit_micros = Some(500);
    let found = analyze(&e);
    assert_eq!(
        kinds(&found),
        vec![CacheAnomalyKind::ResponseBeforeRequest {
            request_micros: 1_000,
            response_micros: 500
        }]
    );
    assert_eq!(found[0].severity(), Severity::Medium);
    assert_eq!(found[0].category(), Category::History);
    assert_eq!(found[0].code(), "CACHE-TIME-RESPONSE-BEFORE-REQUEST");
    assert_eq!(
        found[0].note(),
        "response time (500 \u{b5}s) precedes request time (1000 \u{b5}s) \u{2014} impossible for a real fetch, consistent with an edited timestamp"
    );
}

#[test]
fn every_check_fires_in_order() {
    let mut e = entry();
    e.body_crc32 = Some(1);
    e.key_sha256 = Some([0; 32]);
    e.request_time_webkit_micros = Some(2);
    e.response_time_webkit_micros = Some(1);
    let found = analyze(&e);
    let codes: Vec<&str> = found.iter().map(|f| f.code()).collect();
    assert_eq!(
        codes,
        vec![
            "CACHE-BODY-CRC-MISMATCH",
            "CACHE-KEY-SHA256-MISMATCH",
            "CACHE-TIME-RESPONSE-BEFORE-REQUEST"
        ]
    );
}

#[test]
fn a_finding_records_its_kinds_grading() {
    let kind = CacheAnomalyKind::KeySha256Mismatch;
    let a = CacheAnomaly::new(kind.clone());
    assert_eq!(a.severity(), kind.severity());
    assert_eq!(a.code(), kind.code());
    assert_eq!(a.note(), kind.note());
    assert_eq!(a.category(), kind.category());
}

#[test]
fn the_url_is_the_last_whitespace_separated_token() {
    assert_eq!(carve_url(&"1/0/_dk_a b\tc\nhttp://h/x".to_owned()), "http://h/x");
    assert_eq!(carve_url(&"http://bare".to_owned()), "http://bare");
    assert_eq!(carve_url(&"trailing ".to_owned()), "");
    assert_eq!(carve_url(&String::new()), "");
}

#[test]
fn error_messages_carry_the_exact_values() {
    assert_eq!(
        parse_entry(&[0u8; 5]).unwrap_err().message(),
        "buffer too short for a Simple Cache header: 5 bytes available (need 24)"
    );
    let mut wrong = vec![0u8; 32];
    let magic = [0xde, 0xad, 0xbe, 0xef, 0x01, 0x02, 0x03, 0x04];
    wrong[..8].copy_from_slice(&magic);
    assert_eq!(
        parse_entry(&wrong).unwrap_err().message(),
        format!(
            "bad Simple Cache entry magic: found {magic:02x?} (expected 305c72a71b6dfbfc little-endian)"
        )
    );
    let mut oversized = vec![0u8; 30];
    oversized[..8].copy_from_slice(&0xfcfb_6d1b_a772_5c30u64.to_le_bytes());
    oversized[12..16].copy_from_slice(&7u32.to_le_bytes());
    assert_eq!(
        parse_entry(&oversized).unwrap_err().message(),
        "key_length 7 exceeds 6 available bytes after the header"
    );
}

const FINAL_MAGIC: u64 = 0xf4fa_6f45_970d_41d8;

fn eof(flags: u32, data_crc32: u32, stream_size: u32) -> Vec<u8> {
    let mut t = Vec::new();
    t.extend_from_slice(&FINAL_MAGIC.to_le_bytes());
    t.extend_from_slice(&flags.to_le_bytes());
    t.extend_from_slice(&data_crc32.to_le_bytes());
    t.extend_from_slice(&stream_size.to_le_bytes());
    t.extend_from_slice(&0u32.to_le_bytes());
    t
}

#[test]
fn a_complete_entry_decodes_every_field() {
    let key = b"1/0/_dk_http://x http://x http://x/a.js";
    let mut buf = Vec::new();
    buf.extend_from_slice(&0xfcfb_6d1b_a772_5c30u64.to_le_bytes());
    buf.extend_from_slice(&5u32.to_le_bytes());
    buf.extend_from_slice(&(key.len() as u32).to_le_bytes());
    buf.extend_from_slice(&0xAABB_CCDDu32.to_le_bytes());
    buf.extend_from_slice(&0u32.to_le_bytes());
    buf.extend_from_slice(key);
    buf.extend_from_slice(b"123456789");
    buf.extend_from_slice(&eof(1, 0xCBF4_3926, 9));
    let mut pickle = vec![0u8; 28];
    pickle[12..20].copy_from_slice(&13_300_000_000_000_000u64.to_le_bytes());
    pickle[20..28].copy_from_slice(&13_300_000_000_000_007u64.to_le_bytes());
    pickle.extend_from_slice(
        b"HTTP/1.1 200 OK\x00Content-Type: text/plain\x00 Cache-Control :  public, max-age=9 \x00no colon here\x00\x00ignored: yes\x00",
    );
    let digest = [0x5Au8; 32];
    buf.extend_from_slice(&pickle);
    buf.extend_from_slice(&digest);
    buf.extend_from_slice(&eof(2, 0, pickle.len() as u32));
    let e = parse_entry(&buf).expect("complete entry parses");
    assert_eq!(e.key, "1/0/_dk_http://x http://x http://x/a.js");
    assert_eq!(e.url, "http://x/a.js");
    assert_eq!(e.version, 5);
    assert_eq!(e.key_hash, 0xAABB_CCDD);
    assert_eq!(e.body, b"123456789");
    assert_eq!(e.body_crc32, Some(0xCBF4_3926));
    assert_eq!(e.request_time_webkit_micros, Some(13_300_000_000_000_000));
    assert_eq!(e.response_time_webkit_micros, Some(13_300_000_000_000_007));
    assert_eq!(e.status_line.as_deref(), Some("HTTP/1.1 200 OK"));
    assert_eq!(
        e.headers,
        vec![
            ("Content-Type".to_owned(), "text/plain".to_owned()),
            ("Cache-Control".to_owned(), "public, max-age=9".to_owned()),
        ]
    );
    assert_eq!(e.key_sha256, Some(digest));
    // The decoded entry agrees with itself except for the key digest.
    assert_eq!(
        analyze(&e).iter().map(|f| f.code()).collect::<Vec<_>>(),
        vec!["CACHE-KEY-SHA256-MISMATCH"]
    );
}

#[test]
fn trailers_do_not_overlap_and_bytes_between_them_are_the_body() {
    // A FINAL_MAGIC that starts inside the first trailer is not a second one.
    let key = b"k";
    let mut buf = Vec::new();
    buf.extend_from_slice(&0xfcfb_6d1b_a772_5c30u64.to_le_bytes());
    buf.extend_from_slice(&5u32.to_le_bytes());
    buf.extend_from_slice(&1u32.to_le_bytes());
    buf.extend_from_slice(&[0u8; 8]);
    buf.extend_from_slice(key);
    let mut t = eof(0, 0, 0);
    t[16..24].copy_from_slice(&FINAL_MAGIC.to_le_bytes());
    buf.extend_from_slice(&t);
    buf.extend_from_slice(&[0u8; 16]);
    let e = parse_entry(&buf).expect("parses");
    assert!(e.body.is_empty());
    assert!(e.status_line.is_none());
}

/// A well-formed entry, as Chrome writes one: a body whose trailer records
/// its true CRC-32, a key whose true SHA-256 follows the response pickle, and
/// a response recorded after its request. It stands in for a minted entry.
fn minted_entry() -> CacheEntry {
    let key = b"1/0/_dk_http://127.0.0.1 http://127.0.0.1 http://127.0.0.1/res.txt";
    let body = b"CACHED-CONTENT-MARKER-9427";
    let mut buf = Vec::new();
    buf.extend_from_slice(&0xfcfb_6d1b_a772_5c30u64.to_le_bytes());
    buf.extend_from_slice(&5u32.to_le_bytes());
    buf.extend_from_slice(&(key.len() as u32).to_le_bytes());
    buf.extend_from_slice(&0x1234_5678u32.to_le_bytes());
    buf.extend_from_slice(&0u32.to_le_bytes());
    buf.extend_from_slice(key);
    buf.extend_from_slice(body);
    buf.extend_from_slice(&eof(1, crc32fast::hash(body), body.len() as u32));
    let mut pickle = vec![0u8; 28];
    pickle[12..20].copy_from_slice(&13_380_000_000_000_000u64.to_le_bytes());
    pickle[20..28].copy_from_slice(&13_380_000_000_250_000u64.to_le_bytes());
    pickle.extend_from_slice(b"HTTP/1.1 200 OK\x00Content-Type: text/plain\x00\x00");
    let digest: [u8; 32] = sha2::Sha256::digest(key).into();
    buf.extend_from_slice(&pickle);
    buf.extend_from_slice(&digest);
    buf.extend_from_slice(&eof(2, 0, pickle.len() as u32));
    let e = parse_entry(&buf).expect("a well-formed entry parses");
    assert!(analyze(&e).is_empty(), "a well-formed entry exhibits no anomaly");
    e
}

#[test]
fn a_corrupted_body_is_caught() {
    let mut e = minted_entry();
    assert!(e.body_crc32.is_some() && !e.body.is_empty());
    e.body[0] ^= 0xFF;
    let findings = analyze(&e);
    assert!(
        findings
            .iter()
            .any(|f| matches!(f.kind, CacheAnomalyKind::BodyCrc32Mismatch { .. })),
        "a body edit must trip the CRC-32 integrity check"
    );
}

#[test]
fn an_entry_without_integrity_fields_yields_nothing() {
    let mut e = minted_entry();
    e.body_crc32 = None;
    e.key_sha256 = None;
    e.request_time_webkit_micros = None;
    e.response_time_webkit_micros = None;
    assert!(
        analyze(&e).is_empty(),
        "an entry carrying no integrity fields has nothing to contradict"
    );
}

#[test]
fn a_mismatched_key_sha256_is_caught() {
    let mut e = minted_entry();
    e.key_sha256 = Some([0xAB; 32]);
    let findings = analyze(&e);
    assert!(
        findings
            .iter()
            .any(|f| matches!(f.kind, CacheAnomalyKind::KeySha256Mismatch)),
        "a key SHA-256 that disagrees with the stored key must trip the key-integrity check"
    );
}

#[test]
fn a_response_before_request_is_caught() {
    let mut e = minted_entry();
    e.request_time_webkit_micros = Some(1_000);
    e.response_time_webkit_micros = Some(500);
    let findings = analyze(&e);
    assert!(
        findings
            .iter()
            .any(|f| matches!(f.kind, CacheAnomalyKind::ResponseBeforeRequest { .. })),
        "a response earlier than its request must trip the timeline check"
    );
}

#[test]
fn every_one_byte_edit_of_a_body_is_caught() {
    let original = b"123456789".to_vec();
    for k in 0..original.len() {
        for m in [0x01u8, 0x80, 0xFF] {
            let mut e = entry();
            e.body_crc32 = Some(crc32fast::hash(&original));
            e.body = original.clone();
            e.body[k] ^= m;
            let found = analyze(&e);
            assert_eq!(
                found[0].kind,
                CacheAnomalyKind::BodyCrc32Mismatch {
                    stored: 0xCBF4_3926,
                    computed: crc32fast::hash(&e.body)
                }
            );
        }
    }
}

//! Tests for the Simple Cache entry reader.

use chromium_storage_forensic::{parse_entry, CacheError};

// ─── Robustness (panic-free on malformed input) ──────────────────────────────

#[test]
fn empty_buffer_is_too_short_not_a_panic() {
    assert!(matches!(parse_entry(&[]), Err(CacheError::TooShort { .. })));
}

#[test]
fn wrong_magic_is_reported_with_the_bytes() {
    let mut buf = vec![0u8; 32];
    buf[..8].copy_from_slice(&[1, 2, 3, 4, 5, 6, 7, 8]);
    match parse_entry(&buf) {
        Err(CacheError::BadMagic { found }) => assert_eq!(found, [1, 2, 3, 4, 5, 6, 7, 8]),
        other => panic!("expected BadMagic, got {other:?}"),
    }
}

#[test]
fn oversized_key_length_is_rejected() {
    // Valid magic, but key_length claims far more than the buffer holds.
    let mut buf = vec![0u8; 24];
    buf[..8].copy_from_slice(&0xfcfb_6d1b_a772_5c30u64.to_le_bytes());
    buf[12..16].copy_from_slice(&0xffff_ffffu32.to_le_bytes()); // key_length
    assert!(matches!(
        parse_entry(&buf),
        Err(CacheError::KeyLengthOutOfRange { .. })
    ));
}

#[test]
fn errors_display_the_offending_value_and_offset() {
    // Every CacheError renders fail-loud: the offending value travels with the
    // message. Derive each variant from parse_entry and assert on its message.

    // TooShort: an empty buffer reports the available count and the 24-byte need.
    let too_short = parse_entry(&[]).unwrap_err().message();
    assert!(
        too_short.contains("too short")
            && too_short.contains("0 bytes")
            && too_short.contains("24"),
        "TooShort display was {too_short:?}"
    );

    // BadMagic: the eight bytes found are shown verbatim (hex).
    let mut wrong = vec![0u8; 32];
    wrong[..8].copy_from_slice(&[0xde, 0xad, 0xbe, 0xef, 0x01, 0x02, 0x03, 0x04]);
    let bad_magic = parse_entry(&wrong).unwrap_err().message();
    assert!(
        bad_magic.contains("bad Simple Cache entry magic")
            && bad_magic.contains("de")
            && bad_magic.contains("ef"),
        "BadMagic display was {bad_magic:?}"
    );

    // KeyLengthOutOfRange: the declared length and the available byte count.
    let mut oversized = vec![0u8; 24];
    oversized[..8].copy_from_slice(&0xfcfb_6d1b_a772_5c30u64.to_le_bytes());
    oversized[12..16].copy_from_slice(&0xffff_ffffu32.to_le_bytes()); // key_length
    let out_of_range = parse_entry(&oversized).unwrap_err().message();
    assert!(
        out_of_range.contains("key_length 4294967295") && out_of_range.contains("exceeds"),
        "KeyLengthOutOfRange display was {out_of_range:?}"
    );
}

#[test]
fn valid_header_without_trailers_still_yields_the_url() {
    // Header + key, but no EOF trailers (truncated entry): URL survives, body empty.
    let key = b"1/0/_dk_http://x http://x http://x/asset.js";
    let mut buf = Vec::new();
    buf.extend_from_slice(&0xfcfb_6d1b_a772_5c30u64.to_le_bytes());
    buf.extend_from_slice(&5u32.to_le_bytes()); // version
    buf.extend_from_slice(&(key.len() as u32).to_le_bytes()); // key_length
    buf.extend_from_slice(&0u32.to_le_bytes()); // key_hash
    buf.extend_from_slice(&0u32.to_le_bytes()); // padding
    buf.extend_from_slice(key);
    let e = parse_entry(&buf).expect("header-only entry parses");
    assert!(e.url.ends_with("/asset.js"), "url {:?}", e.url);
    assert!(e.body.is_empty());
    assert!(e.status_line.is_none());
}

// ─── Hand-built entries: the stream/trailer edge shapes ──────────────────────
//
// [header 24B][key][stream 1 body][EOF 24B][stream 0 pickle][key SHA-256?][EOF 24B].

const INITIAL_MAGIC: u64 = 0xfcfb_6d1b_a772_5c30;
const FINAL_MAGIC: u64 = 0xf4fa_6f45_970d_41d8;
const FLAG_HAS_CRC32: u32 = 1 << 0;
const FLAG_HAS_KEY_SHA256: u32 = 1 << 1;

fn header(key: &[u8]) -> Vec<u8> {
    let mut b = Vec::new();
    b.extend_from_slice(&INITIAL_MAGIC.to_le_bytes());
    b.extend_from_slice(&5u32.to_le_bytes()); // version
    b.extend_from_slice(&(key.len() as u32).to_le_bytes());
    b.extend_from_slice(&0u32.to_le_bytes()); // key_hash
    b.extend_from_slice(&0u32.to_le_bytes()); // padding to HEADER_LEN
    b.extend_from_slice(key);
    b
}

fn eof(flags: u32, data_crc32: u32, stream_size: u32) -> Vec<u8> {
    let mut t = Vec::new();
    t.extend_from_slice(&FINAL_MAGIC.to_le_bytes());
    t.extend_from_slice(&flags.to_le_bytes());
    t.extend_from_slice(&data_crc32.to_le_bytes());
    t.extend_from_slice(&stream_size.to_le_bytes());
    t.extend_from_slice(&0u32.to_le_bytes()); // padding to EOF_LEN
    t
}

#[test]
fn a_single_trailer_yields_the_body_and_crc_but_no_response_info() {
    let mut buf = header(b"http://x/one.bin");
    buf.extend_from_slice(b"BODY");
    buf.extend_from_slice(&eof(FLAG_HAS_CRC32, 0x1234_5678, 4));
    let e = parse_entry(&buf).expect("single-trailer entry parses");
    assert_eq!(e.body, b"BODY");
    assert_eq!(e.body_crc32, Some(0x1234_5678));
    assert!(e.status_line.is_none());
    assert!(e.key_sha256.is_none());
    assert!(e.request_time_webkit_micros.is_none());
}

#[test]
fn a_stream0_region_without_a_pickle_leaves_the_response_info_empty() {
    let mut buf = header(b"http://x/two.bin");
    buf.extend_from_slice(b"B");
    buf.extend_from_slice(&eof(0, 0, 1));
    buf.extend_from_slice(&eof(0, 0, 0));
    let e = parse_entry(&buf).expect("empty stream-0 region parses");
    assert_eq!(e.body, b"B");
    assert_eq!(e.body_crc32, None, "no CRC32 flag means no CRC32");
    assert!(e.status_line.is_none());
    assert!(e.headers.is_empty());
    assert!(e.key_sha256.is_none());
    assert!(e.response_time_webkit_micros.is_none());
}

#[test]
fn a_pickle_with_no_http_block_still_yields_the_times() {
    let mut pickle = vec![0u8; 28];
    pickle[12..20].copy_from_slice(&13_300_000_000_000_000u64.to_le_bytes());
    pickle[20..28].copy_from_slice(&13_300_000_000_000_001u64.to_le_bytes());
    let mut buf = header(b"http://x/three.bin");
    buf.extend_from_slice(b"B");
    buf.extend_from_slice(&eof(0, 0, 1));
    buf.extend_from_slice(&pickle);
    buf.extend_from_slice(&eof(0, 0, pickle.len() as u32));
    let e = parse_entry(&buf).expect("pickle-without-headers entry parses");
    assert_eq!(e.request_time_webkit_micros, Some(13_300_000_000_000_000));
    assert_eq!(e.response_time_webkit_micros, Some(13_300_000_000_000_001));
    assert!(e.status_line.is_none());
    assert!(e.headers.is_empty());
}

#[test]
fn a_key_sha256_flag_with_truncated_bytes_leaves_the_hash_none() {
    let pickle = b"HTTP/1.1 204 No Content\x00\x00";
    let mut buf = header(b"http://x/four.bin");
    buf.extend_from_slice(b"B");
    buf.extend_from_slice(&eof(0, 0, 1));
    buf.extend_from_slice(pickle);
    buf.extend_from_slice(&[0xAA; 4]); // a truncated SHA-256
    buf.extend_from_slice(&eof(FLAG_HAS_KEY_SHA256, 0, pickle.len() as u32));
    let e = parse_entry(&buf).expect("truncated key-SHA-256 entry parses");
    assert_eq!(e.status_line.as_deref(), Some("HTTP/1.1 204 No Content"));
    assert_eq!(e.key_sha256, None, "a partial hash is no hash");
}

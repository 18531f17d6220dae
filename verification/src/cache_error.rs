//! The error a Simple Cache entry parse can end in. Every variant carries the
//! offending value so an "invalid X" is never a dead end.

use vstd::prelude::*;
use crate::text::{decimal, hex2, push_decimal, push_hex2, push_str, string_from_chars};

verus! {

/// Errors returned while parsing a Simple Cache entry file. Parsing never
/// panics: every malformed input becomes one of these.
#[derive(Debug, Clone, PartialEq, Eq)]
#[non_exhaustive]
pub enum CacheError {
    /// The buffer was shorter than a `SimpleFileHeader` (24 bytes).
    TooShort {
        /// Bytes actually available.
        available: usize,
    },
    /// The leading 64-bit magic was not the Simple Cache entry-header magic;
    /// the eight bytes found are carried verbatim.
    BadMagic {
        /// The eight magic bytes found.
        found: [u8; 8],
    },
    /// The header's `key_length` field runs past the end of the buffer.
    KeyLengthOutOfRange {
        /// The declared key length.
        key_length: u64,
        /// Bytes available after the header.
        available: usize,
    },
}

/// The bytes `b` rendered as a bracketed, comma-separated list of two-digit
/// lower-case hex numbers (the `{:02x?}` rendering of a byte array).
pub open spec fn hex_list(b: Seq<u8>) -> Seq<char>
    decreases b.len(),
{
    if b.len() == 0 {
        seq!['[', ']']
    } else {
        hex_list_items(b.drop_last()).add(hex2(b.last())).push(']')
    }
}

/// The opening bracket and the items of `hex_list(b)` each followed by ", ".
pub open spec fn hex_list_items(b: Seq<u8>) -> Seq<char>
    decreases b.len(),
{
    if b.len() == 0 {
        seq!['[']
    } else {
        hex_list_items(b.drop_last()) + hex2(b.last()) + seq![',', ' ']
    }
}

/// The human-readable message for `e` (what `Display` shows).
pub open spec fn cache_error_message(e: CacheError) -> Seq<char> {
    match e {
        CacheError::TooShort { available } => "buffer too short for a Simple Cache header: "@
            + decimal(available as nat) + " bytes available (need 24)"@,
        CacheError::BadMagic { found } => "bad Simple Cache entry magic: found "@ + hex_list(found@)
            + " (expected 305c72a71b6dfbfc little-endian)"@,
        CacheError::KeyLengthOutOfRange { key_length, available } => "key_length "@ + decimal(
            key_length as nat,
        ) + " exceeds "@ + decimal(available as nat) + " available bytes after the header"@,
    }
}

/// Append the `{:02x?}` rendering of `b` to `out`.
fn push_hex_list(out: &mut Vec<char>, b: &[u8; 8])
    ensures
        final(out)@ == old(out)@ + hex_list(b@),
{
    out.push('[');
    let mut i: usize = 0;
    assert(out@ =~= old(out)@ + hex_list_items(b@.subrange(0, 0)));
    while i < 7
        invariant
            i <= 7,
            b@.len() == 8,
            out@ == old(out)@ + hex_list_items(b@.subrange(0, i as int)),
        decreases 7 - i,
    {
        push_hex2(out, b[i]);
        out.push(',');
        out.push(' ');
        assert(b@.subrange(0, i + 1).drop_last() =~= b@.subrange(0, i as int));
        i = i + 1;
        assert(out@ =~= old(out)@ + hex_list_items(b@.subrange(0, i as int)));
    }
    push_hex2(out, b[7]);
    out.push(']');
    assert(b@.drop_last() =~= b@.subrange(0, 7));
    assert(out@ =~= old(out)@ + hex_list(b@));
}

impl CacheError {
    /// The message that names the offending value (the text `Display` shows).
    pub fn message(&self) -> (s: String)
        ensures
            s@ == cache_error_message(*self),
    {
        let mut out: Vec<char> = Vec::new();
        match self {
            CacheError::TooShort { available } => {
                push_str(&mut out, "buffer too short for a Simple Cache header: ");
                push_decimal(&mut out, *available as u64);
                push_str(&mut out, " bytes available (need 24)");
            },
            CacheError::BadMagic { found } => {
                push_str(&mut out, "bad Simple Cache entry magic: found ");
                push_hex_list(&mut out, found);
                push_str(&mut out, " (expected 305c72a71b6dfbfc little-endian)");
            },
            CacheError::KeyLengthOutOfRange { key_length, available } => {
                push_str(&mut out, "key_length ");
                push_decimal(&mut out, *key_length);
                push_str(&mut out, " exceeds ");
                push_decimal(&mut out, *available as u64);
                push_str(&mut out, " available bytes after the header");
            },
        }
        assert(out@ =~= cache_error_message(*self));
        string_from_chars(&out)
    }
}

} // verus!

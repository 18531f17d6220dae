//! Decoded Chromium Local Storage values.
//!
//! A type-prefixed string is a one-byte encoding marker followed by the
//! encoded body: marker `0x00` is UTF-16LE, `0x01` Latin-1; any other marker
//! is malformed and surfaced raw with `lossy` set. Decoding never fails: a lone
//! surrogate or dangling byte becomes U+FFFD and sets `lossy`, and the raw
//! bytes are always kept.

use vstd::prelude::*;
use vstd::slice::{slice_subrange, slice_to_vec};
use crate::text::{decode_utf16, latin1_chars, latin1_decode, lossy_string, string_from_chars, utf16_text, utf8_text};

verus! {

/// How a [`StorageValue`] was decoded.
#[derive(Clone, Copy, Debug, PartialEq, Eq)]
pub enum Encoding {
    /// UTF-16 little-endian (marker `0x00`).
    Utf16Le,
    /// 8-bit ISO-8859-1 / Latin-1 (marker `0x01`).
    Latin1,
    /// The value had no bytes at all.
    Empty,
    /// An unrecognised marker byte (carried verbatim).
    Unknown(u8),
}

/// A decoded storage value. The raw bytes are always kept; `lossy` is set
/// whenever decoding substituted a replacement char or the marker was
/// unrecognised, so a lossy decode cannot be mistaken for a clean one.
#[derive(Clone, Debug, PartialEq, Eq)]
pub struct StorageValue {
    /// Best-effort decoded text (U+FFFD for undecodable units).
    pub text: String,
    /// The raw value bytes, verbatim.
    pub raw: Vec<u8>,
    /// Which decoder produced `text`.
    pub encoding: Encoding,
    /// `true` if decoding was lossy or the marker was unrecognised.
    pub lossy: bool,
}

/// `value_encoding`: marker `0x00` is UTF-16LE, `0x01` Latin-1, and every
/// other byte is no encoding (`None`), as `forensicnomicon_core`'s
/// `chromium_local_storage::value_encoding` maps them.
#[verifier::external_body]
fn marker_encoding(marker: u8) -> (r: Option<Encoding>)
    ensures
        r == if marker == 0 {
            Some(Encoding::Utf16Le)
        } else if marker == 1 {
            Some(Encoding::Latin1)
        } else {
            None::<Encoding>
        },
{
    match forensicnomicon_core::chromium_local_storage::value_encoding(marker) {
        Some(forensicnomicon_core::chromium_local_storage::ValueEncoding::Utf16Le) => Some(Encoding::Utf16Le),
        Some(forensicnomicon_core::chromium_local_storage::ValueEncoding::Latin1) => Some(Encoding::Latin1),
        _ => None,
    }
}

/// Whether `v` is the empty value.
pub open spec fn is_empty_value(v: StorageValue) -> bool {
    &&& v.text@.len() == 0
    &&& v.raw@.len() == 0
    &&& v.encoding == Encoding::Empty
    &&& !v.lossy
}

/// Whether `v` is the type-prefixed string `raw` decoded.
pub open spec fn decodes_type_prefixed(raw: Seq<u8>, v: StorageValue) -> bool {
    if raw.len() == 0 {
        is_empty_value(v)
    } else {
        let body = raw.drop_first();
        &&& v.raw@ == raw
        &&& if raw[0] == 0 {
            &&& v.encoding == Encoding::Utf16Le
            &&& (v.text@, v.lossy) == utf16_text(body, false)
        } else if raw[0] == 1 {
            &&& v.encoding == Encoding::Latin1
            &&& v.text@ == latin1_chars(body)
            &&& !v.lossy
        } else {
            &&& v.encoding == Encoding::Unknown(raw[0])
            &&& v.text@ == utf8_text(raw)
            &&& v.lossy
        }
    }
}

impl StorageValue {
    /// The empty value (a deletion tombstone carries no value bytes).
    pub fn empty() -> (v: Self)
        ensures
            is_empty_value(v),
    {
        StorageValue {
            text: String::new(),
            raw: Vec::new(),
            encoding: Encoding::Empty,
            lossy: false,
        }
    }
}

/// Decode a UTF-16LE body. A trailing odd byte or a lone surrogate becomes
/// U+FFFD and marks the result lossy; never panics.
pub fn decode_utf16le(body: &[u8], raw: &[u8]) -> (v: StorageValue)
    ensures
        v.encoding == Encoding::Utf16Le,
        (v.text@, v.lossy) == utf16_text(body@, false),
        v.raw@ == raw@,
{
    let (chars, lossy) = decode_utf16(body, false);
    StorageValue {
        text: string_from_chars(&chars),
        raw: slice_to_vec(raw),
        encoding: Encoding::Utf16Le,
        lossy,
    }
}

/// Decode a Latin-1 body. Every byte maps to U+00xx, so this is total and
/// never lossy.
pub fn decode_latin1(body: &[u8], raw: &[u8]) -> (v: StorageValue)
    ensures
        v.encoding == Encoding::Latin1,
        v.text@ == latin1_chars(body@),
        !v.lossy,
        v.raw@ == raw@,
{
    let chars = latin1_decode(body);
    StorageValue {
        text: string_from_chars(&chars),
        raw: slice_to_vec(raw),
        encoding: Encoding::Latin1,
        lossy: false,
    }
}

/// Decode a type-prefixed string. The leading marker selects the encoding; an
/// unrecognised marker surfaces the raw bytes (read as lossy UTF-8) with
/// `lossy` set rather than guessing. An empty input is the empty value.
pub fn decode_type_prefixed(raw: &[u8]) -> (v: StorageValue)
    ensures
        decodes_type_prefixed(raw@, v),
        raw@.len() > 0 && raw@[0] == 1 ==> v.text@.len() == raw@.len() - 1 && forall|i: int|
            0 <= i < v.text@.len() ==> #[trigger] v.text@[i] as u32 == raw@[i + 1] as u32,
        raw@.len() > 0 ==> v.raw@ == raw@,
{
    if raw.len() == 0 {
        return StorageValue::empty();
    }
    let marker = raw[0];
    let body = slice_subrange(raw, 1, raw.len());
    assert(body@ =~= raw@.drop_first());
    match marker_encoding(marker) {
        Some(Encoding::Utf16Le) => decode_utf16le(body, raw),
        Some(Encoding::Latin1) => decode_latin1(body, raw),
        _ => StorageValue {
            text: lossy_string(raw),
            raw: slice_to_vec(raw),
            encoding: Encoding::Unknown(marker),
            lossy: true,
        },
    }
}


/// A Latin-1 value (marker `0x01`) is read byte for byte: its text has one
/// char per body byte, and char `i` has the code point of body byte `i`.
pub proof fn lemma_latin1_value_is_bytewise(raw: Seq<u8>, v: StorageValue)
    ensures
        decodes_type_prefixed(raw, v) && raw.len() > 0 && raw[0] == 1 ==> v.text@.len() == raw.len()
            - 1 && forall|i: int|
            0 <= i < v.text@.len() ==> #[trigger] v.text@[i] as u32 == raw[i + 1] as u32,
{
}

/// The raw bytes are always kept: a decoded type-prefixed string carries its
/// input verbatim, and a Latin-1 decode is never lossy.
pub proof fn lemma_raw_always_kept(raw: Seq<u8>, v: StorageValue)
    requires
        decodes_type_prefixed(raw, v),
    ensures
        v.raw@ == raw,
        v.encoding == Encoding::Latin1 ==> !v.lossy,
{
}

/// A decode that is not marked lossy is faithful: for a UTF-16LE value no
/// byte dangles and re-encoding the text gives back the body's code units.
pub proof fn lemma_clean_utf16_value_is_faithful(raw: Seq<u8>, v: StorageValue)
    requires
        decodes_type_prefixed(raw, v),
        v.encoding == Encoding::Utf16Le,
        !v.lossy,
    ensures
        raw.drop_first().len() % 2 == 0,
        crate::text::utf16_encode(v.text@) == crate::text::utf16_units(raw.drop_first(), false),
{
    crate::text::lemma_utf16_text_clean_round_trips(raw.drop_first(), false);
}

} // verus!

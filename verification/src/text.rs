//! Text decoding shared by the readers: UTF-16 (either byte order), Latin-1,
//! lossy UTF-8, Unicode white space, trimming and decimal rendering.

use vstd::prelude::*;
use vstd::utf8::*;

verus! {

broadcast use vstd::utf8::char_u32_cast;

// ── Unicode white space ─────────────────────────────────────────────────────

/// The Unicode `White_Space` property (the set `char::is_whitespace` tests).
pub open spec fn is_white_space(c: char) -> bool {
    let v = c as u32;
    ||| 0x09 <= v <= 0x0d
    ||| v == 0x20
    ||| v == 0x85
    ||| v == 0xa0
    ||| v == 0x1680
    ||| 0x2000 <= v <= 0x200a
    ||| v == 0x2028
    ||| v == 0x2029
    ||| v == 0x202f
    ||| v == 0x205f
    ||| v == 0x3000
}

/// Whether `c` has the Unicode `White_Space` property.
pub fn is_whitespace_char(c: char) -> (r: bool)
    ensures
        r == is_white_space(c),
{
    let v = c as u32;
    (0x09 <= v && v <= 0x0d) || v == 0x20 || v == 0x85 || v == 0xa0 || v == 0x1680 || (0x2000
        <= v && v <= 0x200a) || v == 0x2028 || v == 0x2029 || v == 0x202f || v == 0x205f || v
        == 0x3000
}

/// `s` without its leading white space.
pub open spec fn trim_start(s: Seq<char>) -> Seq<char>
    decreases s.len(),
{
    if s.len() > 0 && is_white_space(s[0]) {
        trim_start(s.drop_first())
    } else {
        s
    }
}

/// `s` without its trailing white space.
pub open spec fn trim_end(s: Seq<char>) -> Seq<char>
    decreases s.len(),
{
    if s.len() > 0 && is_white_space(s.last()) {
        trim_end(s.drop_last())
    } else {
        s
    }
}

/// `s` without leading and trailing white space (what `str::trim` returns).
pub open spec fn trim(s: Seq<char>) -> Seq<char> {
    trim_end(trim_start(s))
}

/// The chars of `s` from `lo` to `hi` with white space trimmed from both ends.
pub fn trim_range(s: &Vec<char>, lo: usize, hi: usize) -> (r: Vec<char>)
    requires
        lo <= hi <= s@.len(),
    ensures
        r@ == trim(s@.subrange(lo as int, hi as int)),
{
    let mut a = lo;
    while a < hi && is_whitespace_char(s[a])
        invariant
            lo <= a <= hi <= s@.len(),
            trim_start(s@.subrange(lo as int, hi as int)) == trim_start(
                s@.subrange(a as int, hi as int),
            ),
        decreases hi - a,
    {
        assert(s@.subrange(a as int, hi as int).drop_first() =~= s@.subrange(a + 1, hi as int));
        a = a + 1;
    }
    proof {
        let t = s@.subrange(a as int, hi as int);
        if t.len() > 0 {
            assert(t[0] == s@[a as int]);
        }
    }
    let mut b = hi;
    while b > a && is_whitespace_char(s[b - 1])
        invariant
            lo <= a <= b <= hi <= s@.len(),
            trim_end(s@.subrange(a as int, hi as int)) == trim_end(
                s@.subrange(a as int, b as int),
            ),
        decreases b - a,
    {
        assert(s@.subrange(a as int, b as int).drop_last() =~= s@.subrange(a as int, b - 1));
        b = b - 1;
    }
    proof {
        let t = s@.subrange(a as int, b as int);
        if t.len() > 0 {
            assert(t.last() == s@[b - 1]);
        }
    }
    let mut out: Vec<char> = Vec::new();
    let mut i = a;
    while i < b
        invariant
            a <= i <= b <= s@.len(),
            out@ =~= s@.subrange(a as int, i as int),
        decreases b - i,
    {
        out.push(s[i]);
        i = i + 1;
    }
    out
}

// ── Latin-1 ─────────────────────────────────────────────────────────────────

/// ISO-8859-1: every byte is the code point of the same value.
pub open spec fn latin1_chars(bytes: Seq<u8>) -> Seq<char> {
    Seq::new(bytes.len(), |i: int| bytes[i] as char)
}

/// Decode `bytes` as ISO-8859-1 (Latin-1). Total: every byte maps to U+00xx.
pub fn latin1_decode(bytes: &[u8]) -> (r: Vec<char>)
    ensures
        r@ == latin1_chars(bytes@),
{
    let mut out: Vec<char> = Vec::new();
    let mut i: usize = 0;
    while i < bytes.len()
        invariant
            i <= bytes@.len(),
            out@ =~= latin1_chars(bytes@.subrange(0, i as int)),
        decreases bytes@.len() - i,
    {
        out.push(bytes[i] as char);
        i = i + 1;
    }
    assert(bytes@.subrange(0, bytes@.len() as int) =~= bytes@);
    out
}


// ── UTF-16 ──────────────────────────────────────────────────────────────────

/// The replacement character U+FFFD.
pub open spec fn replacement() -> char {
    '\u{FFFD}'
}

/// Whether a UTF-16 code unit is a high (leading) surrogate.
pub open spec fn is_high_surrogate(u: u16) -> bool {
    0xD800 <= u <= 0xDBFF
}

/// Whether a UTF-16 code unit is a low (trailing) surrogate.
pub open spec fn is_low_surrogate(u: u16) -> bool {
    0xDC00 <= u <= 0xDFFF
}

/// The scalar value a surrogate pair encodes.
pub open spec fn pair_scalar(hi: u16, lo: u16) -> u32 {
    (0x10000 + (hi - 0xD800) * 0x400 + (lo - 0xDC00)) as u32
}

/// How `char::decode_utf16` reads `units`, each unpaired surrogate becoming
/// U+FFFD: the decoded text and whether any replacement was made.
pub open spec fn utf16_decode(units: Seq<u16>) -> (Seq<char>, bool)
    decreases units.len(),
{
    if units.len() == 0 {
        (Seq::empty(), false)
    } else {
        let a = units[0];
        if !is_high_surrogate(a) && !is_low_surrogate(a) {
            let rest = utf16_decode(units.drop_first());
            (seq![(a as u32) as char] + rest.0, rest.1)
        } else if is_high_surrogate(a) && units.len() >= 2 && is_low_surrogate(units[1]) {
            let rest = utf16_decode(units.skip(2));
            (seq![pair_scalar(a, units[1]) as char] + rest.0, rest.1)
        } else {
            let rest = utf16_decode(units.drop_first());
            (seq![replacement()] + rest.0, true)
        }
    }
}

/// The code unit formed by the two bytes at `2 * i`, in the given byte order.
pub open spec fn unit_at(bytes: Seq<u8>, i: int, big_endian: bool) -> u16 {
    if big_endian {
        (bytes[2 * i] * 256 + bytes[2 * i + 1]) as u16
    } else {
        (bytes[2 * i + 1] * 256 + bytes[2 * i]) as u16
    }
}

/// The whole code units of `bytes` in the given byte order (a trailing odd
/// byte forms no unit).
pub open spec fn utf16_units(bytes: Seq<u8>, big_endian: bool) -> Seq<u16> {
    Seq::new(bytes.len() / 2, |i: int| unit_at(bytes, i, big_endian))
}

/// UTF-16 text in the given byte order: the decoded units, with U+FFFD for
/// each unpaired surrogate and for a dangling odd byte, and whether any
/// replacement was made.
pub open spec fn utf16_text(bytes: Seq<u8>, big_endian: bool) -> (Seq<char>, bool) {
    let d = utf16_decode(utf16_units(bytes, big_endian));
    if bytes.len() % 2 == 1 {
        (d.0.push(replacement()), true)
    } else {
        d
    }
}

/// `char::from_u32`: `Some(c)` with `c as u32 == v` exactly when `v` is a
/// Unicode scalar value, else `None`.
#[verifier::external_body]
fn char_from_u32(v: u32) -> (r: Option<char>)
    ensures
        r is Some <==> is_scalar(v),
        r matches Some(c) ==> c as u32 == v,
{
    char::from_u32(v)
}

/// The char of scalar value `v`.
fn scalar_char(v: u32) -> (c: char)
    requires
        is_scalar(v),
    ensures
        c == v as char,
{
    match char_from_u32(v) {
        Some(c) => {
            proof {
                vstd::utf8::char_u32_cast(c, v);
            }
            c
        },
        None => '\u{FFFD}',
    }
}

/// The code unit at index `i` of `bytes` in the given byte order.
fn read_unit(bytes: &[u8], i: usize, big_endian: bool) -> (u: u16)
    requires
        i < bytes@.len() / 2,
    ensures
        u == unit_at(bytes@, i as int, big_endian),
        u == utf16_units(bytes@, big_endian)[i as int],
{
    assert(2 * i + 1 < bytes@.len()) by (nonlinear_arith)
        requires
            i < bytes@.len() / 2,
    ;
    assert(bytes@.len() == bytes.len());
    let j = i + i;
    if big_endian {
        (bytes[j] as u16) * 256 + bytes[j + 1] as u16
    } else {
        (bytes[j + 1] as u16) * 256 + bytes[j] as u16
    }
}

/// One step of `utf16_decode` on the suffix of `units` that starts at `i`.
proof fn lemma_utf16_step(units: Seq<u16>, i: int)
    requires
        0 <= i < units.len(),
    ensures
        ({
            let t = units.subrange(i, units.len() as int);
            let a = units[i];
            let one = utf16_decode(units.subrange(i + 1, units.len() as int));
            &&& !is_high_surrogate(a) && !is_low_surrogate(a) ==> utf16_decode(t) == (
                seq![(a as u32) as char] + one.0,
                one.1,
            )
            &&& is_high_surrogate(a) && i + 1 < units.len() && is_low_surrogate(units[i + 1])
                ==> utf16_decode(t) == ({
                let two = utf16_decode(units.subrange(i + 2, units.len() as int));
                (seq![pair_scalar(a, units[i + 1]) as char] + two.0, two.1)
            })
            &&& (is_high_surrogate(a) || is_low_surrogate(a)) && !(is_high_surrogate(a) && i + 1
                < units.len() && is_low_surrogate(units[i + 1])) ==> utf16_decode(t) == (
                seq![replacement()] + one.0,
                true,
            )
        }),
{
    let t = units.subrange(i, units.len() as int);
    assert(t.drop_first() =~= units.subrange(i + 1, units.len() as int));
    if i + 1 < units.len() {
        assert(t.skip(2) =~= units.subrange(i + 2, units.len() as int));
    }
}

/// Decode the one char that starts at unit `i`: the char, how many units it
/// took, and whether it is a replacement for an unpaired surrogate.
fn utf16_step(bytes: &[u8], i: usize, big_endian: bool) -> (r: (char, usize, bool))
    requires
        i < bytes@.len() / 2,
    ensures
        ({
            let units = utf16_units(bytes@, big_endian);
            let n = units.len() as int;
            let rest = utf16_decode(units.subrange(i + r.1, n));
            &&& r.1 == 1 || r.1 == 2
            &&& i + r.1 <= n
            &&& utf16_decode(units.subrange(i as int, n)) == (seq![r.0] + rest.0, r.2 || rest.1)
        }),
{
    let ghost units = utf16_units(bytes@, big_endian);
    proof {
        lemma_utf16_step(units, i as int);
    }
    let n = bytes.len() / 2;
    let a = read_unit(bytes, i, big_endian);
    if a < 0xD800 || a > 0xDFFF {
        (scalar_char(a as u32), 1, false)
    } else if a <= 0xDBFF && i + 1 < n {
        let b = read_unit(bytes, i + 1, big_endian);
        if 0xDC00 <= b && b <= 0xDFFF {
            let v: u32 = 0x10000 + ((a - 0xD800) as u32) * 0x400 + ((b - 0xDC00) as u32);
            (scalar_char(v), 2, false)
        } else {
            ('\u{FFFD}', 1, true)
        }
    } else {
        ('\u{FFFD}', 1, true)
    }
}

/// Decode UTF-16 text in the given byte order. An unpaired surrogate or a
/// dangling odd byte becomes U+FFFD and is reported in the flag; never panics.
pub fn decode_utf16(bytes: &[u8], big_endian: bool) -> (r: (Vec<char>, bool))
    ensures
        (r.0@, r.1) == utf16_text(bytes@, big_endian),
{
    let ghost units = utf16_units(bytes@, big_endian);
    let n = bytes.len() / 2;
    let mut out: Vec<char> = Vec::new();
    let mut lossy = false;
    let mut i: usize = 0;
    assert(units.subrange(0, n as int) =~= units);
    assert(out@ + utf16_decode(units).0 =~= utf16_decode(units).0);
    while i < n
        invariant
            n == bytes@.len() / 2,
            units == utf16_units(bytes@, big_endian),
            units.len() == n,
            i <= n,
            ({
                let d = utf16_decode(units.subrange(i as int, n as int));
                utf16_decode(units) == (out@ + d.0, lossy || d.1)
            }),
        decreases n - i,
    {
        let (c, w, bad) = utf16_step(bytes, i, big_endian);
        let ghost old_out = out@;
        out.push(c);
        if bad {
            lossy = true;
        }
        i = i + w;
        assert(old_out + (seq![c] + utf16_decode(units.subrange(i as int, n as int)).0) =~= out@
            + utf16_decode(units.subrange(i as int, n as int)).0);
    }
    assert(units.subrange(n as int, n as int) =~= Seq::<u16>::empty());
    assert(out@ + Seq::<char>::empty() =~= out@);
    if bytes.len() % 2 == 1 {
        out.push('\u{FFFD}');
        lossy = true;
    }
    (out, lossy)
}

// ── Strings ─────────────────────────────────────────────────────────────────

/// The text `String::from_utf8_lossy` makes of `bytes`: each invalid UTF-8
/// sequence replaced by U+FFFD.
pub uninterp spec fn utf8_lossy(bytes: Seq<u8>) -> Seq<char>;

/// The text `bytes` read as UTF-8: exactly the decoded text when the bytes
/// are valid UTF-8, else what `String::from_utf8_lossy` makes of them.
pub open spec fn utf8_text(bytes: Seq<u8>) -> Seq<char> {
    if valid_utf8(bytes) {
        decode_utf8(bytes)
    } else {
        utf8_lossy(bytes)
    }
}

/// ASCII reads as itself: bytes below `0x80` are valid UTF-8, and their text
/// is the chars of the same codes.
pub proof fn lemma_ascii_text(bytes: Seq<u8>)
    requires
        forall|i: int| 0 <= i < bytes.len() ==> #[trigger] bytes[i] < 0x80,
    ensures
        valid_utf8(bytes),
        utf8_text(bytes) == latin1_chars(bytes),
    decreases bytes.len(),
{
    if bytes.len() > 0 {
        let b = bytes[0];
        let rest = bytes.subrange(1, bytes.len() as int);
        assert(b & 0x7f == b) by (bit_vector)
            requires
                b < 0x80,
        ;
        assert(pop_first_scalar(bytes) == rest);
        assert forall|i: int| 0 <= i < rest.len() implies #[trigger] rest[i] < 0x80 by {
            assert(rest[i] == bytes[i + 1]);
        }
        lemma_ascii_text(rest);
        assert(decode_utf8(bytes) == seq![(b as u32) as char] + decode_utf8(rest));
        assert(seq![(b as u32) as char] + latin1_chars(rest) =~= latin1_chars(bytes));
    } else {
        assert(decode_utf8(bytes) =~= latin1_chars(bytes));
    }
}

/// `String::from_utf8_lossy` (made owned). Its result is named by
/// `utf8_lossy`; for valid UTF-8 it is exactly the decoded text, as the
/// standard library documents. What it makes of invalid sequences is left
/// unstated beyond the name.
#[verifier::external_body]
pub(crate) fn lossy_string(bytes: &[u8]) -> (s: String)
    ensures
        s@ == utf8_lossy(bytes@),
        valid_utf8(bytes@) ==> s@ == decode_utf8(bytes@),
{
    String::from_utf8_lossy(bytes).into_owned()
}

/// The chars of a `String`, in order.
pub(crate) fn string_chars(s: &String) -> (v: Vec<char>)
    ensures
        v@ == s@,
{
    broadcast use vstd::string::axiom_spec_iter;
    let mut v: Vec<char> = Vec::new();
    for c in it: s.as_str().chars()
        invariant
            it.seq() == s@,
            v@ == it.seq().take(it.index()),
    {
        assert(it.seq().take(it.index() + 1) =~= it.seq().take(it.index()).push(c));
        v.push(c);
    }
    v
}

/// `String::push`: append one char.
#[verifier::external_body]
fn push_char(s: &mut String, c: char)
    ensures
        final(s)@ == old(s)@.push(c),
{
    s.push(c)
}

/// A `String` holding exactly the given chars.
pub(crate) fn string_from_chars(v: &Vec<char>) -> (s: String)
    ensures
        s@ == v@,
{
    let mut s = String::new();
    let mut i: usize = 0;
    while i < v.len()
        invariant
            i <= v@.len(),
            s@ == v@.take(i as int),
        decreases v@.len() - i,
    {
        push_char(&mut s, v[i]);
        assert(v@.take(i + 1) =~= v@.take(i as int).push(v@[i as int]));
        i = i + 1;
    }
    assert(v@.take(v@.len() as int) =~= v@);
    s
}

// ── Number rendering ────────────────────────────────────────────────────────

/// The ASCII digit for `d` (`d < 16`), lower-case for ten and above.
pub open spec fn digit_char(d: nat) -> char {
    if d < 10 {
        (48 + d) as char
    } else {
        (87 + d) as char
    }
}

/// `n` written in decimal, without leading zeros.
pub open spec fn decimal(n: nat) -> Seq<char>
    decreases n,
{
    if n < 10 {
        seq![digit_char(n)]
    } else {
        decimal(n / 10).push(digit_char(n % 10))
    }
}

/// `b` written as two lower-case hexadecimal digits.
pub open spec fn hex2(b: u8) -> Seq<char> {
    seq![digit_char(b as nat / 16), digit_char(b as nat % 16)]
}

/// The digit char for `d < 16`.
fn digit(d: u8) -> (c: char)
    requires
        d < 16,
    ensures
        c == digit_char(d as nat),
{
    if d < 10 {
        (48 + d) as char
    } else {
        (87 + d) as char
    }
}

/// Append the decimal form of `n` to `out`.
pub fn push_decimal(out: &mut Vec<char>, n: u64)
    ensures
        final(out)@ == old(out)@ + decimal(n as nat),
    decreases n,
{
    if n >= 10 {
        push_decimal(out, n / 10);
    }
    out.push(digit((n % 10) as u8));
    assert(out@ =~= old(out)@ + decimal(n as nat));
}

/// Append the two-digit lower-case hexadecimal form of `b` to `out`.
pub fn push_hex2(out: &mut Vec<char>, b: u8)
    ensures
        final(out)@ == old(out)@ + hex2(b),
{
    out.push(digit(b / 16));
    out.push(digit(b % 16));
    assert(out@ =~= old(out)@ + hex2(b));
}

/// Append `s` to `out`.
pub fn push_str(out: &mut Vec<char>, s: &str)
    ensures
        final(out)@ == old(out)@ + s@,
{
    let owned = s.to_owned();
    push_string(out, &owned);
}

/// Append the chars of a `String`.
pub fn push_string(out: &mut Vec<char>, s: &String)
    ensures
        final(out)@ == old(out)@ + s@,
{
    let chars = string_chars(s);
    let mut i: usize = 0;
    while i < chars.len()
        invariant
            i <= chars@.len(),
            chars@ == s@,
            out@ == old(out)@ + chars@.subrange(0, i as int),
        decreases chars@.len() - i,
    {
        out.push(chars[i]);
        i = i + 1;
        assert(out@ =~= old(out)@ + chars@.subrange(0, i as int));
    }
    assert(chars@.subrange(0, chars@.len() as int) =~= chars@);
}

/// `v` written as `n` lower-case hexadecimal digits (the low `n` nibbles,
/// most significant first, zero-padded).
pub open spec fn hex_digits(v: nat, n: nat) -> Seq<char>
    decreases n,
{
    if n == 0 {
        Seq::empty()
    } else {
        hex_digits(v / 16, (n - 1) as nat).push(digit_char(v % 16))
    }
}

/// `v` in the `{:#010x}` form: `0x` and eight hexadecimal digits.
pub open spec fn hex32(v: u32) -> Seq<char> {
    seq!['0', 'x'] + hex_digits(v as nat, 8)
}

/// Append the low `n` nibbles of `v` as hexadecimal digits.
fn push_hex_digits(out: &mut Vec<char>, v: u32, n: u32)
    ensures
        final(out)@ == old(out)@ + hex_digits(v as nat, n as nat),
    decreases n,
{
    if n > 0 {
        push_hex_digits(out, v / 16, n - 1);
        out.push(digit((v % 16) as u8));
        assert(out@ =~= old(out)@ + hex_digits(v as nat, n as nat));
    }
}

/// Append `v` in the `{:#010x}` form.
pub fn push_hex32(out: &mut Vec<char>, v: u32)
    ensures
        final(out)@ == old(out)@ + hex32(v),
{
    out.push('0');
    out.push('x');
    push_hex_digits(out, v, 8);
    assert(out@ =~= old(out)@ + hex32(v));
}


// ── UTF-16 round trip ───────────────────────────────────────────────────────

/// The UTF-16 code units of a char: one unit below U+10000, else a
/// surrogate pair.
pub open spec fn utf16_encode_char(c: char) -> Seq<u16> {
    let v = c as u32;
    if v < 0x10000 {
        seq![v as u16]
    } else {
        seq![
            (0xD800 + (v - 0x10000) / 0x400) as u16,
            (0xDC00 + (v - 0x10000) % 0x400) as u16,
        ]
    }
}

/// The UTF-16 code units of a text.
pub open spec fn utf16_encode(cs: Seq<char>) -> Seq<u16>
    decreases cs.len(),
{
    if cs.len() == 0 {
        Seq::empty()
    } else {
        utf16_encode_char(cs[0]) + utf16_encode(cs.drop_first())
    }
}

/// Encoding distributes over concatenation.
proof fn lemma_utf16_encode_prepend(c: char, cs: Seq<char>)
    ensures
        utf16_encode(seq![c] + cs) == utf16_encode_char(c) + utf16_encode(cs),
{
    assert((seq![c] + cs).drop_first() =~= cs);
}

/// A clean UTF-16 decode loses nothing: when no replacement was made,
/// re-encoding the text gives back exactly the code units.
pub proof fn lemma_utf16_clean_decode_round_trips(units: Seq<u16>)
    ensures
        !utf16_decode(units).1 ==> utf16_encode(utf16_decode(units).0) =~= units,
    decreases units.len(),
{
    if units.len() > 0 {
        let a = units[0];
        if !is_high_surrogate(a) && !is_low_surrogate(a) {
            lemma_utf16_clean_decode_round_trips(units.drop_first());
            let c = (a as u32) as char;
            lemma_utf16_encode_prepend(c, utf16_decode(units.drop_first()).0);
            assert(seq![a] + units.drop_first() =~= units);
        } else if is_high_surrogate(a) && units.len() >= 2 && is_low_surrogate(units[1]) {
            let b = units[1];
            lemma_utf16_clean_decode_round_trips(units.skip(2));
            let v = pair_scalar(a, b);
            let c = v as char;
            assert(0x10000 <= v <= 0x10FFFF);
            assert(c as u32 == v);
            let d = (v - 0x10000) as int;
            assert(d == (a - 0xD800) * 0x400 + (b - 0xDC00));
            assert(d / 0x400 == a - 0xD800 && d % 0x400 == b - 0xDC00) by (nonlinear_arith)
                requires
                    d == (a - 0xD800) * 0x400 + (b - 0xDC00),
                    0 <= b - 0xDC00 < 0x400,
                    0 <= a - 0xD800,
            ;
            lemma_utf16_encode_prepend(c, utf16_decode(units.skip(2)).0);
            assert(seq![a, b] + units.skip(2) =~= units);
        }
    }
}

/// A clean UTF-16 text decode loses nothing: no byte dangles, and
/// re-encoding the text gives back the code units of the bytes.
pub proof fn lemma_utf16_text_clean_round_trips(bytes: Seq<u8>, big_endian: bool)
    ensures
        !utf16_text(bytes, big_endian).1 ==> bytes.len() % 2 == 0 && utf16_encode(
            utf16_text(bytes, big_endian).0,
        ) == utf16_units(bytes, big_endian),
{
    lemma_utf16_clean_decode_round_trips(utf16_units(bytes, big_endian));
}

} // verus!

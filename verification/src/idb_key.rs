//! The IndexedDB primary key (`IDBKey`): a one-byte type tag followed by a
//! type-specific body.

use vstd::prelude::*;
use vstd::slice::{slice_subrange, slice_to_vec};
use crate::bytes::le_value;
use crate::text::{decode_utf16, string_from_chars, utf16_text};
use crate::varint::{read_varint, spec_read_varint};

verus! {

/// A decoded IndexedDB key. Numbers and dates are kept as the bit pattern of
/// their IEEE-754 double (what `f64::to_bits` gives).
#[derive(Debug, PartialEq, Eq)]
pub enum IdbKey {
    /// Tag `3`: a number (the bits of an IEEE-754 double).
    Number(u64),
    /// Tag `2`: a date, milliseconds since the Unix epoch (the bits of an
    /// IEEE-754 double).
    Date(u64),
    /// Tag `1`: a UTF-16BE string.
    String(String),
    /// Tag `6`: raw bytes.
    Binary(Vec<u8>),
    /// Tag `4`: an array of keys.
    Array(Vec<IdbKey>),
    /// Tag `0`: the null/none key.
    Null,
    /// Tag `5`: the synthetic minimum key.
    Min,
    /// An unrecognised tag or a truncated body: the key bytes, verbatim.
    Invalid(Vec<u8>),
}

/// The mathematical value of an [`IdbKey`].
pub enum KeyModel {
    Number(u64),
    Date(u64),
    String(Seq<char>),
    Binary(Seq<u8>),
    Array(Seq<KeyModel>),
    Null,
    Min,
    Invalid(Seq<u8>),
}

/// The value of a key.
pub open spec fn key_view(k: IdbKey) -> KeyModel
    decreases k,
{
    match k {
        IdbKey::Number(v) => KeyModel::Number(v),
        IdbKey::Date(v) => KeyModel::Date(v),
        IdbKey::String(s) => KeyModel::String(s@),
        IdbKey::Binary(b) => KeyModel::Binary(b@),
        IdbKey::Array(v) => KeyModel::Array(keys_view(v@)),
        IdbKey::Null => KeyModel::Null,
        IdbKey::Min => KeyModel::Min,
        IdbKey::Invalid(b) => KeyModel::Invalid(b@),
    }
}

/// The values of a list of keys.
pub open spec fn keys_view(v: Seq<IdbKey>) -> Seq<KeyModel>
    decreases v,
{
    Seq::new(
        v.len(),
        |i: int|
            if 0 <= i < v.len() {
                key_view(v[i])
            } else {
                KeyModel::Null
            },
    )
}


/// The text of a UTF-16BE string body (an unpaired surrogate becomes U+FFFD).
pub open spec fn utf16be_chars(body: Seq<u8>) -> Seq<char> {
    utf16_text(body, true).0
}

/// Decoding the key that starts at offset `i` of `t`: the key and the offset
/// just past it, or `None` for an unrecognised tag or a truncated body.
///
/// Tags: `0` null, `1` string (varint count of UTF-16 units, then the units
/// big-endian), `2` date and `3` number (eight little-endian bytes of a
/// double), `4` array (varint count, then that many keys), `5` min, `6`
/// binary (varint length, then the bytes).
pub open spec fn key_at(t: Seq<u8>, i: int) -> Option<(KeyModel, int)>
    decreases t.len() - i, 0nat, 0nat,
{
    if i < 0 || i >= t.len() {
        None
    } else {
        let tag = t[i];
        if tag == 0 {
            Some((KeyModel::Null, i + 1))
        } else if tag == 5 {
            Some((KeyModel::Min, i + 1))
        } else if tag == 2 || tag == 3 {
            if i + 9 <= t.len() {
                let bits = le_value(t.subrange(i + 1, i + 9)) as u64;
                Some(
                    (
                        if tag == 3 {
                            KeyModel::Number(bits)
                        } else {
                            KeyModel::Date(bits)
                        },
                        i + 9,
                    ),
                )
            } else {
                None
            }
        } else if tag == 1 || tag == 4 || tag == 6 {
            match spec_read_varint(t, i + 1) {
                Some((n, p)) => if tag == 1 {
                    if p + 2 * n <= t.len() {
                        Some((KeyModel::String(utf16be_chars(t.subrange(p, p + 2 * n))), p + 2 * n))
                    } else {
                        None
                    }
                } else if tag == 6 {
                    if p + n <= t.len() {
                        Some((KeyModel::Binary(t.subrange(p, p + n)), p + n))
                    } else {
                        None
                    }
                } else if i < p <= t.len() {
                    match keys_at(t, p, n as nat) {
                        Some((ks, q)) => Some((KeyModel::Array(ks), q)),
                        None => None,
                    }
                } else {
                    None
                },
                None => None,
            }
        } else {
            None
        }
    }
}

/// Decoding `count` consecutive keys from offset `i` of `t`.
pub open spec fn keys_at(t: Seq<u8>, i: int, count: nat) -> Option<(Seq<KeyModel>, int)>
    decreases t.len() - i, 1nat, count,
{
    if count == 0 {
        Some((Seq::empty(), i))
    } else if i < 0 || i > t.len() {
        None
    } else {
        match key_at(t, i) {
            Some((k, j)) => if i < j <= t.len() {
                match keys_at(t, j, (count - 1) as nat) {
                    Some((ks, q)) => Some((seq![k] + ks, q)),
                    None => None,
                }
            } else {
                None
            },
            None => None,
        }
    }
}

/// What a whole key tail decodes to: the key that opens it, or `Invalid`
/// with the tail verbatim when none can be read.
pub open spec fn decode_key_spec(t: Seq<u8>) -> KeyModel {
    match key_at(t, 0) {
        Some((k, _)) => k,
        None => KeyModel::Invalid(t),
    }
}

/// A decoded key ends after its tag and inside `t`; a decoded list ends at or
/// after its start and inside `t`.
pub proof fn lemma_key_at_advances(t: Seq<u8>, i: int)
    ensures
        key_at(t, i) matches Some((k, j)) ==> i < j <= t.len(),
    decreases t.len() - i, 0nat, 0nat,
{
    if 0 <= i < t.len() {
        crate::varint::lemma_varint_extent(t, i + 1);
        let tag = t[i];
        if tag == 4 {
            match spec_read_varint(t, i + 1) {
                Some((n, p)) => {
                    if i < p <= t.len() {
                        lemma_keys_at_advances(t, p, n as nat);
                    }
                },
                None => {},
            }
        }
    }
}

/// See [`lemma_key_at_advances`].
pub proof fn lemma_keys_at_advances(t: Seq<u8>, i: int, count: nat)
    ensures
        keys_at(t, i, count) matches Some((ks, j)) ==> i <= j && (count > 0 ==> j <= t.len())
            && ks.len() == count,
    decreases t.len() - i, 1nat, count,
{
    if count > 0 && 0 <= i <= t.len() {
        lemma_key_at_advances(t, i);
        match key_at(t, i) {
            Some((k, j)) => {
                if i < j <= t.len() {
                    lemma_keys_at_advances(t, j, (count - 1) as nat);
                }
            },
            None => {},
        }
    }
}


/// Appending a key appends its value.
proof fn lemma_keys_view_push(v: Seq<IdbKey>, k: IdbKey)
    ensures
        keys_view(v.push(k)) =~= keys_view(v).push(key_view(k)),
{
    assert forall|i: int| 0 <= i < v.len() + 1 implies #[trigger] keys_view(v.push(k))[i]
        == keys_view(v).push(key_view(k))[i] by {
        if i < v.len() {
            assert(v.push(k)[i] == v[i]);
        }
    }
}

/// Decode the key that starts at offset `i` of `t`.
fn decode_at(t: &[u8], i: usize) -> (r: Option<(IdbKey, usize)>)
    ensures
        match r {
            Some((k, j)) => key_at(t@, i as int) == Some((key_view(k), j as int)),
            None => key_at(t@, i as int) is None,
        },
    decreases t@.len() - i, 0nat, 0nat,
{
    let len = t.len();
    if i >= len {
        return None;
    }
    let tag = t[i];
    if tag == 0 {
        Some((IdbKey::Null, i + 1))
    } else if tag == 5 {
        Some((IdbKey::Min, i + 1))
    } else if tag == 2 || tag == 3 {
        if len - i >= 9 {
            let bits = safe_read::le_u64(t, i + 1);
            if tag == 3 {
                Some((IdbKey::Number(bits), i + 9))
            } else {
                Some((IdbKey::Date(bits), i + 9))
            }
        } else {
            None
        }
    } else if tag == 1 || tag == 4 || tag == 6 {
        proof {
            crate::varint::lemma_varint_extent(t@, i + 1);
        }
        match read_varint(t, i + 1) {
            Some((n, p)) => {
                if tag == 1 {
                    if n <= ((len - p) / 2) as u64 {
                        let end = p + 2 * (n as usize);
                        let (chars, _lossy) = decode_utf16(slice_subrange(t, p, end), true);
                        let s = string_from_chars(&chars);
                        Some((IdbKey::String(s), end))
                    } else {
                        None
                    }
                } else if tag == 6 {
                    if n <= (len - p) as u64 {
                        let end = p + n as usize;
                        Some((IdbKey::Binary(slice_to_vec(slice_subrange(t, p, end))), end))
                    } else {
                        None
                    }
                } else {
                    match decode_list(t, p, n) {
                        Some((ks, q)) => Some((IdbKey::Array(ks), q)),
                        None => None,
                    }
                }
            },
            None => None,
        }
    } else {
        None
    }
}

/// Decode `count` consecutive keys from offset `i` of `t`.
fn decode_list(t: &[u8], i: usize, count: u64) -> (r: Option<(Vec<IdbKey>, usize)>)
    requires
        i <= t@.len(),
    ensures
        match r {
            Some((ks, q)) => keys_at(t@, i as int, count as nat) == Some((keys_view(ks@), q as int)),
            None => keys_at(t@, i as int, count as nat) is None,
        },
    decreases t@.len() - i, 1nat, 0nat,
{
    let mut acc: Vec<IdbKey> = Vec::new();
    let mut pos = i;
    let mut k: u64 = 0;
    assert(keys_view(acc@) =~= Seq::<KeyModel>::empty());
    assert(keys_at(t@, i as int, count as nat) == match keys_at(t@, pos as int, (count - k) as nat) {
        Some((ks, q)) => Some((keys_view(acc@) + ks, q)),
        None => None,
    }) by {
        match keys_at(t@, i as int, count as nat) {
            Some((ks, q)) => {
                assert(keys_view(acc@) + ks =~= ks);
            },
            None => {},
        }
    }
    while k < count
        invariant
            i <= pos <= t@.len(),
            k <= count,
            keys_at(t@, i as int, count as nat) == match keys_at(
                t@,
                pos as int,
                (count - k) as nat,
            ) {
                Some((ks, q)) => Some((keys_view(acc@) + ks, q)),
                None => None,
            },
        decreases count - k,
    {
        proof {
            lemma_key_at_advances(t@, pos as int);
        }
        match decode_at(t, pos) {
            Some((key, j)) => {
                let ghost c = (count - k) as nat;
                let ghost km = key_view(key);
                let ghost old_acc = acc@;
                proof {
                    lemma_keys_view_push(acc@, key);
                    match keys_at(t@, j as int, (c - 1) as nat) {
                        Some((ks, q)) => {
                            assert(keys_view(old_acc) + (seq![km] + ks) =~= keys_view(
                                old_acc,
                            ).push(km) + ks);
                        },
                        None => {},
                    }
                }
                acc.push(key);
                pos = j;
                k = k + 1;
            },
            None => {
                return None;
            },
        }
    }
    assert(keys_view(acc@) + Seq::<KeyModel>::empty() =~= keys_view(acc@));
    Some((acc, pos))
}

impl IdbKey {
    /// Decode a key tail: the key that opens it, or `Invalid` carrying the
    /// tail verbatim when the tag is unrecognised or the body truncated (an
    /// empty tail is `Invalid` too). Never panics.
    pub fn decode(tail: &[u8]) -> (k: IdbKey)
        ensures
            key_view(k) == decode_key_spec(tail@),
    {
        match decode_at(tail, 0) {
            Some((k, _)) => k,
            None => IdbKey::Invalid(slice_to_vec(tail)),
        }
    }
}


/// A copy of every key of `v`.
fn clone_keys(v: &Vec<IdbKey>) -> (r: Vec<IdbKey>)
    ensures
        keys_view(r@) == keys_view(v@),
    decreases v@, 0nat,
{
    let mut out: Vec<IdbKey> = Vec::new();
    let mut i: usize = 0;
    while i < v.len()
        invariant
            i <= v@.len(),
            out@.len() == i,
            forall|k: int| 0 <= k < i ==> key_view(#[trigger] out@[k]) == key_view(v@[k]),
        decreases v@.len() - i,
    {
        assert(decreases_to!(v@ => v@[i as int]));
        let c = copy_key(&v[i]);
        out.push(c);
        i = i + 1;
    }
    assert(keys_view(out@) =~= keys_view(v@));
    out
}

/// A copy of `k`.
fn copy_key(k: &IdbKey) -> (r: IdbKey)
    ensures
        key_view(r) == key_view(*k),
    decreases *k, 1nat,
{
    match k {
        IdbKey::Number(v) => IdbKey::Number(*v),
        IdbKey::Date(v) => IdbKey::Date(*v),
        IdbKey::String(s) => IdbKey::String(s.clone()),
        IdbKey::Binary(b) => IdbKey::Binary(slice_to_vec(b.as_slice())),
        IdbKey::Array(v) => IdbKey::Array(clone_keys(v)),
        IdbKey::Null => IdbKey::Null,
        IdbKey::Min => IdbKey::Min,
        IdbKey::Invalid(b) => IdbKey::Invalid(slice_to_vec(b.as_slice())),
    }
}

impl Clone for IdbKey {
    /// A copy with the same value.
    fn clone(&self) -> (r: Self)
        ensures
            key_view(r) == key_view(*self),
    {
        copy_key(self)
    }
}

} // verus!

//! The IndexedDB `KeyPrefix`: the `(database id, object store id, index id)`
//! that opens every record key.

use vstd::prelude::*;
use crate::bytes::be_value;

verus! {

/// `256^n`.
pub open spec fn pow256(n: nat) -> nat
    decreases n,
{
    if n == 0 {
        1
    } else {
        256 * pow256((n - 1) as nat)
    }
}

/// A big-endian value of `s` is below `256^len`.
pub proof fn lemma_be_value_bound(s: Seq<u8>)
    ensures
        be_value(s) < pow256(s.len()),
    decreases s.len(),
{
    if s.len() > 0 {
        lemma_be_value_bound(s.drop_last());
        assert(be_value(s) == be_value(s.drop_last()) * 256 + s.last() as nat);
    }
}

/// `256^n` for `n <= 7` is at most `2^56`.
pub proof fn lemma_pow256_small(n: nat)
    requires
        n <= 7,
    ensures
        pow256(n) <= 0x100_0000_0000_0000,
{
    reveal_with_fuel(pow256, 8);
    assert(pow256(7) == 0x100_0000_0000_0000);
    if n < 7 {
        assert(pow256(n) <= pow256(7));
    }
}

/// The big-endian value of the `n` bytes at `off`, kept to its low 64 bits
/// (as `u64` shifts keep them), when those bytes are all in `data`.
pub open spec fn spec_be_uint(data: Seq<u8>, off: int, n: int) -> Option<u64> {
    if 0 <= off && 0 <= n && off + n <= data.len() {
        Some((be_value(data.subrange(off, off + n)) % 0x1_0000_0000_0000_0000) as u64)
    } else {
        None
    }
}

/// One more byte: the value shifts left by eight bits and takes the byte in,
/// still kept to its low 64 bits.
proof fn lemma_be_step(v: u64, a: nat, b: u8)
    requires
        v == a % 0x1_0000_0000_0000_0000,
    ensures
        (v << 8u64) | (b as u64) == (a * 256 + b) % 0x1_0000_0000_0000_0000,
{
    let m: int = 0x1_0000_0000_0000_0000;
    assert((v << 8u64) | (b as u64) == (v * 256 + b) % 0x1_0000_0000_0000_0000) by (bit_vector);
    assert((v * 256 + b) % m == (a * 256 + b) % m) by {
        vstd::arithmetic::div_mod::lemma_mul_mod_noop_left(a as int, 256, m);
        vstd::arithmetic::div_mod::lemma_add_mod_noop((a * 256) as int, b as int, m);
        vstd::arithmetic::div_mod::lemma_add_mod_noop((v * 256) as int, b as int, m);
        vstd::arithmetic::div_mod::lemma_mul_mod_noop_left(v as int, 256, m);
        vstd::arithmetic::div_mod::lemma_mod_twice(a as int, m);
    }
}

/// Read a big-endian unsigned integer of `n` bytes at `off` (keeping the low
/// 64 bits; the key prefix reads one to eight bytes); `None` if out of range.
pub fn be_uint(data: &[u8], off: usize, n: usize) -> (r: Option<u64>)
    ensures
        r == spec_be_uint(data@, off as int, n as int),
        n <= 8 ==> (r matches Some(v) ==> v as nat == be_value(data@.subrange(off as int, off + n))),
{
    let len = data.len();
    if off > len || n > len - off {
        return None;
    }
    let mut v: u64 = 0;
    let mut i: usize = 0;
    assert(data@.subrange(off as int, off as int) =~= Seq::<u8>::empty());
    while i < n
        invariant
            len == data@.len(),
            off + n <= len,
            i <= n,
            v == be_value(data@.subrange(off as int, off + i)) % 0x1_0000_0000_0000_0000,
        decreases n - i,
    {
        let ghost s = data@.subrange(off as int, off + i + 1);
        proof {
            assert(s.drop_last() =~= data@.subrange(off as int, off + i));
            lemma_be_step(v, be_value(data@.subrange(off as int, off + i)), data@[off + i]);
        }
        v = (v << 8u64) | (data[off + i] as u64);
        i = i + 1;
    }
    proof {
        if n <= 8 {
            lemma_be_value_bound(data@.subrange(off as int, off + n));
            lemma_pow256_small_or_eight(n as nat);
        }
    }
    Some(v)
}

/// `256^n` for `n <= 8` is at most `2^64`.
proof fn lemma_pow256_small_or_eight(n: nat)
    requires
        n <= 8,
    ensures
        pow256(n) <= 0x1_0000_0000_0000_0000,
{
    reveal_with_fuel(pow256, 9);
    assert(pow256(8) == 0x1_0000_0000_0000_0000);
    if n < 8 {
        lemma_pow256_monotone(n, 8);
    }
}

/// `256^n` grows with `n`.
proof fn lemma_pow256_monotone(a: nat, b: nat)
    requires
        a <= b,
    ensures
        pow256(a) <= pow256(b),
    decreases b - a,
{
    if a < b {
        lemma_pow256_monotone(a, (b - 1) as nat);
        assert(pow256(b) == 256 * pow256((b - 1) as nat));
    }
}

/// The field lengths a `KeyPrefix` descriptor byte declares: the top three
/// bits are the database id's length less one, the next three the object
/// store id's, the bottom two the index id's.
pub open spec fn prefix_lengths(d: u8) -> (nat, nat, nat) {
    ((d / 32) as nat + 1, ((d / 4) % 8) as nat + 1, (d % 4) as nat + 1)
}

/// `decode_key_prefix_lengths`: the three field lengths a `KeyPrefix`
/// descriptor byte declares (`(d >> 5) + 1`, `((d >> 2) & 7) + 1`,
/// `(d & 3) + 1`), as a tuple.
#[verifier::external_body]
fn key_prefix_lengths(descriptor: u8) -> (r: (u8, u8, u8))
    ensures
        (r.0 as nat, r.1 as nat, r.2 as nat) == prefix_lengths(descriptor),
{
    let l = forensicnomicon_core::chromium_indexeddb::decode_key_prefix_lengths(descriptor);
    (l.database_id_len, l.object_store_id_len, l.index_id_len)
}

/// A decoded `KeyPrefix`: the three ids and the total prefix length in bytes,
/// so the caller can find the key tail that follows.
#[derive(Debug, Clone, Copy, PartialEq, Eq)]
pub struct KeyPrefix {
    pub database_id: u64,
    pub object_store_id: u64,
    pub index_id: u64,
    /// Byte length of the whole prefix (the descriptor byte and the three ids).
    pub len: usize,
}

/// The `KeyPrefix` that opens `key`: `None` when the key is empty or shorter
/// than its descriptor demands.
pub open spec fn spec_key_prefix(key: Seq<u8>) -> Option<KeyPrefix> {
    if key.len() == 0 {
        None
    } else {
        let a = prefix_lengths(key[0]).0 as int;
        let b = prefix_lengths(key[0]).1 as int;
        let c = prefix_lengths(key[0]).2 as int;
        if 1 + a + b + c <= key.len() {
            Some(
                KeyPrefix {
                    database_id: be_value(key.subrange(1, 1 + a)) as u64,
                    object_store_id: be_value(key.subrange(1 + a, 1 + a + b)) as u64,
                    index_id: be_value(key.subrange(1 + a + b, 1 + a + b + c)) as u64,
                    len: (1 + a + b + c) as usize,
                },
            )
        } else {
            None
        }
    }
}

impl KeyPrefix {
    /// Parse the `KeyPrefix` at the start of a record key; `None` if the key
    /// is shorter than the descriptor demands (never panics).
    pub fn parse(key: &[u8]) -> (r: Option<KeyPrefix>)
        ensures
            r == spec_key_prefix(key@),
            r matches Some(p) ==> 4 <= p.len <= key@.len(),
    {
        if key.len() == 0 {
            return None;
        }
        let descriptor = key[0];
        let (a, b, c) = key_prefix_lengths(descriptor);
        let db = a as usize;
        let os = b as usize;
        let ix = c as usize;
        let database_id = match be_uint(key, 1, db) {
            Some(v) => v,
            None => return None,
        };
        let object_store_id = match be_uint(key, 1 + db, os) {
            Some(v) => v,
            None => return None,
        };
        let index_id = match be_uint(key, 1 + db + os, ix) {
            Some(v) => v,
            None => return None,
        };
        Some(KeyPrefix { database_id, object_store_id, index_id, len: 1 + db + os + ix })
    }
}

} // verus!

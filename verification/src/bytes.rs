//! Bounds-checked integer reads over untrusted bytes.

use vstd::prelude::*;

verus! {

/// The unsigned value of `s` read little-endian (first byte least significant).
pub open spec fn le_value(s: Seq<u8>) -> nat
    decreases s.len(),
{
    if s.len() == 0 {
        0
    } else {
        s[0] as nat + 256 * le_value(s.drop_first())
    }
}

/// The unsigned value of `s` read big-endian (first byte most significant).
pub open spec fn be_value(s: Seq<u8>) -> nat
    decreases s.len(),
{
    if s.len() == 0 {
        0
    } else {
        be_value(s.drop_last()) * 256 + s.last() as nat
    }
}

/// What `safe_read`'s plain readers return: the little-endian value of the
/// `n` bytes at `off`, or `0` when that window is not wholly inside `data`.
pub open spec fn le_or_zero(data: Seq<u8>, off: int, n: int) -> nat {
    if 0 <= off && off + n <= data.len() {
        le_value(data.subrange(off, off + n))
    } else {
        0
    }
}

/// `safe_read::le_u32`: the little-endian `u32` at `off`, or `0` when the four
/// bytes at `off` are not all inside `data` (it never panics).
pub assume_specification[ safe_read::le_u32 ](data: &[u8], off: usize) -> (r: u32)
    ensures
        r == le_or_zero(data@, off as int, 4),
;

/// `safe_read::le_u64`: the little-endian `u64` at `off`, or `0` when the eight
/// bytes at `off` are not all inside `data` (it never panics).
pub assume_specification[ safe_read::le_u64 ](data: &[u8], off: usize) -> (r: u64)
    ensures
        r == le_or_zero(data@, off as int, 8),
;

} // verus!

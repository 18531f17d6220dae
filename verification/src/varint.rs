//! The LEB128 varint shared by IndexedDB's `EncodeVarInt` and protobuf.

use vstd::prelude::*;
use vstd::arithmetic::power2::pow2;

verus! {

/// The 7 data bits of a varint byte, placed at group `k` (bits `7k..7k+7`)
/// of a `u64`.
pub open spec fn varint_group(b: u8, k: nat) -> u64 {
    ((b & 0x7f) as u64) << ((7 * k) as u64)
}

/// Reading the varint that starts at `off`, having consumed `k` groups whose
/// accumulated value is `acc`: `Some((value, next_offset))`, or `None` when the
/// bytes run out or the value overflows `u64` (a tenth group carrying bits
/// above bit 63, or an eleventh group).
pub open spec fn varint_from(data: Seq<u8>, off: int, k: nat, acc: u64) -> Option<(u64, int)>
    decreases 10 - k,
{
    if k >= 10 || off + k < 0 || off + k >= data.len() {
        None
    } else {
        let b = data[off + k];
        let acc2 = acc | varint_group(b, k);
        if k == 9 && b & 0x7f > 1 {
            None
        } else if b & 0x80 == 0 {
            Some((acc2, off + k + 1))
        } else {
            varint_from(data, off, k + 1, acc2)
        }
    }
}

/// The varint at `off` of `data`: its value and the offset just past it.
pub open spec fn spec_read_varint(data: Seq<u8>, off: int) -> Option<(u64, int)> {
    varint_from(data, off, 0, 0)
}

/// Read one LEB128 varint at `off`; `(value, next_offset)` or `None` if it is
/// truncated or overflows `u64`.
pub fn read_varint(data: &[u8], off: usize) -> (r: Option<(u64, usize)>)
    ensures
        match r {
            Some((v, next)) => spec_read_varint(data@, off as int) == Some((v, next as int)),
            None => spec_read_varint(data@, off as int) is None,
        },
        r matches Some((v, next)) ==> v == groups_value(data@, off as int, (next - off) as nat),
{
    proof {
        if off <= data@.len() {
            lemma_varint_value(data@, off as int);
        }
    }
    let mut result: u64 = 0;
    let mut shift: u32 = 0;
    let mut i: usize = off;
    let ghost mut k: nat = 0;
    loop
        invariant
            i == off + k,
            shift == 7 * k,
            k <= 10,
            varint_from(data@, off as int, 0, 0) == varint_from(data@, off as int, k, result),
            off <= data@.len() ==> (spec_read_varint(data@, off as int) matches Some((v, next))
                ==> v == groups_value(data@, off as int, (next - off) as nat)),
        decreases 10 - k,
    {
        if i >= data.len() {
            return None;
        }
        let byte = data[i];
        i = i + 1;
        if shift >= 64 {
            return None;
        }
        if shift == 63 && (byte & 0x7F) > 1 {
            return None;
        }
        result = result | (((byte & 0x7F) as u64) << shift);
        if byte & 0x80 == 0 {
            return Some((result, i));
        }
        shift = shift + 7;
        proof {
            k = k + 1;
        }
    }
}


/// A varint that reads ends after its first byte, inside the data, and at
/// most ten bytes after it starts.
pub proof fn lemma_varint_extent(data: Seq<u8>, off: int)
    ensures
        spec_read_varint(data, off) matches Some((v, next)) ==> off < next <= data.len() && next
            <= off + 10,
{
    lemma_varint_from_extent(data, off, 0, 0);
}

proof fn lemma_varint_from_extent(data: Seq<u8>, off: int, k: nat, acc: u64)
    ensures
        varint_from(data, off, k, acc) matches Some((v, next)) ==> off + k < next <= data.len()
            && next <= off + 10,
    decreases 10 - k,
{
    if k < 10 && off + k >= 0 && off + k < data.len() {
        let b = data[off + k];
        if !(k == 9 && b & 0x7f > 1) && b & 0x80 != 0 {
            lemma_varint_from_extent(data, off, k + 1, acc | varint_group(b, k));
        }
    }
}

/// The number the first `n` groups of the varint at `off` encode: group `k`
/// contributes its 7 data bits times `2^(7k)`.
pub open spec fn groups_value(data: Seq<u8>, off: int, n: nat) -> nat
    decreases n,
{
    if n == 0 {
        0
    } else {
        groups_value(data, off, (n - 1) as nat) + ((data[off + n - 1] & 0x7f) as nat) * pow2(
            (7 * (n - 1)) as nat,
        )
    }
}

/// Adding group bits above a smaller accumulator loses nothing.
proof fn lemma_group_adds(acc: u64, y: u64, s: u64)
    requires
        s < 64,
        acc < (1u64 << s),
    ensures
        acc | (y << s) == acc + (y << s),
{
    assert(acc < (1u64 << s) ==> acc & (y << s) == 0) by (bit_vector)
        requires
            s < 64,
    ;
    assert(acc & (y << s) == 0 ==> acc | (y << s) == acc + (y << s)) by (bit_vector);
}

/// One group read: the new value is the old plus the group's weighted bits,
/// and stays below the next group's weight.
proof fn lemma_group_step(data: Seq<u8>, off: int, k: nat, acc: u64)
    requires
        k < 10,
        0 <= off,
        off + k < data.len(),
        acc == groups_value(data, off, k),
        acc < pow2(7 * k),
        !(k == 9 && data[off + k] & 0x7f > 1),
    ensures
        (acc | varint_group(data[off + k], k)) == groups_value(data, off, k + 1),
        k < 9 ==> groups_value(data, off, k + 1) < pow2(7 * (k + 1)),
{
    let b = data[off + k];
    let y = (b & 0x7f) as u64;
    let s = (7 * k) as u64;
    vstd::arithmetic::power2::lemma2_to64();
    vstd::arithmetic::power2::lemma2_to64_rest();
    assert(b & 0x7f < 128) by (bit_vector);
    if k < 8 {
        vstd::arithmetic::power2::lemma_pow2_strictly_increases(7 * k, 56);
    }
    assert(pow2(s as nat) <= 0x8000_0000_0000_0000);
    assert(y * pow2(s as nat) <= u64::MAX) by (nonlinear_arith)
        requires
            y < 128,
            k < 9 ==> pow2(s as nat) <= 0x100_0000_0000_0000,
            k == 9 ==> y <= 1 && pow2(s as nat) == 0x8000_0000_0000_0000,
            k <= 9,
    ;
    vstd::bits::lemma_u64_shl_is_mul(y, s);
    vstd::bits::lemma_u64_shl_is_mul(1, s);
    lemma_group_adds(acc, y, s);
    assert(groups_value(data, off, k + 1) == acc + y * pow2(7 * k));
    if k < 9 {
        vstd::arithmetic::power2::lemma_pow2_adds(7 * k, 7);
        assert(acc + y * pow2(7 * k) < pow2(7 * (k + 1))) by (nonlinear_arith)
            requires
                acc < pow2(7 * k),
                y < 128,
                pow2(7 * k + 7) == pow2(7 * k) * pow2(7),
                pow2(7) == 128,
                7 * (k + 1) == 7 * k + 7,
        ;
    }
}

proof fn lemma_varint_from_value(data: Seq<u8>, off: int, k: nat, acc: u64)
    requires
        k <= 10,
        0 <= off,
        off + k <= data.len(),
        acc == groups_value(data, off, k),
        k < 10 ==> acc < pow2(7 * k),
    ensures
        varint_from(data, off, k, acc) matches Some((v, next)) ==> v == groups_value(
            data,
            off,
            (next - off) as nat,
        ),
    decreases 10 - k,
{
    if k < 10 && off + k < data.len() {
        let b = data[off + k];
        if !(k == 9 && b & 0x7f > 1) {
            lemma_group_step(data, off, k, acc);
            if b & 0x80 != 0 {
                lemma_varint_from_value(data, off, k + 1, acc | varint_group(b, k));
            }
        }
    }
}

/// A varint read loses no bits: its value is exactly the number its groups
/// encode (which is how an overflowing tenth group is told apart).
pub proof fn lemma_varint_value(data: Seq<u8>, off: int)
    requires
        0 <= off <= data.len(),
    ensures
        spec_read_varint(data, off) matches Some((v, next)) ==> v == groups_value(
            data,
            off,
            (next - off) as nat,
        ),
{
    vstd::arithmetic::power2::lemma2_to64();
    lemma_varint_from_value(data, off, 0, 0);
}

} // verus!

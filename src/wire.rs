//! Fixed-width integers read from byte sequences, in both byte orders.
use vstd::prelude::*;

verus! {

pub open spec fn be16(s: Seq<u8>, i: int) -> nat {
    (s[i] as nat) * 0x100 + (s[i + 1] as nat)
}

pub open spec fn be24(s: Seq<u8>, i: int) -> nat {
    (s[i] as nat) * 0x10000 + be16(s, i + 1)
}

pub open spec fn be32(s: Seq<u8>, i: int) -> nat {
    (s[i] as nat) * 0x1000000 + (s[i + 1] as nat) * 0x10000 + (s[i + 2] as nat) * 0x100 + (
    s[i + 3] as nat)
}

/// A 40-bit big-endian value: one high byte, then four bytes.
pub open spec fn be40(s: Seq<u8>, i: int) -> nat {
    (s[i] as nat) * 0x1_0000_0000 + be32(s, i + 1)
}

pub open spec fn be64(s: Seq<u8>, i: int) -> nat {
    be32(s, i) * 0x1_0000_0000 + be32(s, i + 4)
}

pub open spec fn be128(s: Seq<u8>, i: int) -> nat {
    be64(s, i) * 0x1_0000_0000_0000_0000 + be64(s, i + 8)
}

pub open spec fn le16(s: Seq<u8>, i: int) -> nat {
    (s[i] as nat) + (s[i + 1] as nat) * 0x100
}

pub open spec fn le32(s: Seq<u8>, i: int) -> nat {
    (s[i] as nat) + (s[i + 1] as nat) * 0x100 + (s[i + 2] as nat) * 0x10000 + (s[i + 3] as nat)
        * 0x1000000
}

pub open spec fn le64(s: Seq<u8>, i: int) -> nat {
    le32(s, i) + le32(s, i + 4) * 0x1_0000_0000
}

/// A little-endian two's-complement 32-bit value.
pub open spec fn le_i32(s: Seq<u8>, i: int) -> int {
    if le32(s, i) < 0x8000_0000 {
        le32(s, i) as int
    } else {
        le32(s, i) - 0x1_0000_0000
    }
}

pub fn read_be16(d: &[u8], i: usize) -> (r: u16)
    requires
        i + 2 <= d@.len(),
    ensures
        r == be16(d@, i as int),
{
    (d[i] as u16) * 0x100 + (d[i + 1] as u16)
}

pub fn read_be32(d: &[u8], i: usize) -> (r: u32)
    requires
        i + 4 <= d@.len(),
    ensures
        r == be32(d@, i as int),
{
    (d[i] as u32) * 0x1000000 + (d[i + 1] as u32) * 0x10000 + (d[i + 2] as u32) * 0x100 + (d[i
        + 3] as u32)
}

pub fn read_be40(d: &[u8], i: usize) -> (r: u64)
    requires
        i + 5 <= d@.len(),
    ensures
        r == be40(d@, i as int),
{
    (d[i] as u64) * 0x1_0000_0000 + (read_be32(d, i + 1) as u64)
}

pub fn read_be64(d: &[u8], i: usize) -> (r: u64)
    requires
        i + 8 <= d@.len(),
    ensures
        r == be64(d@, i as int),
{
    let hi = read_be32(d, i);
    let _n = d.len();
    let lo = read_be32(d, i + 4);
    (hi as u64) * 0x1_0000_0000 + (lo as u64)
}

pub fn read_be128(d: &[u8], i: usize) -> (r: u128)
    requires
        i + 16 <= d@.len(),
    ensures
        r == be128(d@, i as int),
{
    let hi = read_be64(d, i);
    let _n = d.len();
    let lo = read_be64(d, i + 8);
    (hi as u128) * 0x1_0000_0000_0000_0000 + (lo as u128)
}

pub fn read_le16(d: &[u8], i: usize) -> (r: u16)
    requires
        i + 2 <= d@.len(),
    ensures
        r == le16(d@, i as int),
{
    (d[i] as u16) + (d[i + 1] as u16) * 0x100
}

pub fn read_le32(d: &[u8], i: usize) -> (r: u32)
    requires
        i + 4 <= d@.len(),
    ensures
        r == le32(d@, i as int),
{
    (d[i] as u32) + (d[i + 1] as u32) * 0x100 + (d[i + 2] as u32) * 0x10000 + (d[i + 3] as u32)
        * 0x1000000
}

pub fn read_le64(d: &[u8], i: usize) -> (r: u64)
    requires
        i + 8 <= d@.len(),
    ensures
        r == le64(d@, i as int),
{
    let lo = read_le32(d, i);
    let _n = d.len();
    let hi = read_le32(d, i + 4);
    (lo as u64) + (hi as u64) * 0x1_0000_0000
}

pub fn read_le_i32(d: &[u8], i: usize) -> (r: i64)
    requires
        i + 4 <= d@.len(),
    ensures
        r == le_i32(d@, i as int),
{
    let v = read_le32(d, i);
    if v < 0x8000_0000 {
        v as i64
    } else {
        v as i64 - 0x1_0000_0000
    }
}

} // verus!

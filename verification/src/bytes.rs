//! Executable primitives over byte buffers: big-endian reads, range
//! copies and two's-complement reinterpretation, each proved against
//! the wire model.
use vstd::prelude::*;

use crate::wire::{be_bytes, lemma_be_bytes_bound, lemma_pow256_mono, pow256, sign16, sign32,
    sign64, sign8};

verus! {

/// Read the `n` bytes at `pos` as one big-endian unsigned integer.
pub fn read_be(data: &[u8], pos: usize, n: usize) -> (r: u64)
    requires
        n <= 8,
        pos + n <= data@.len(),
    ensures
        r as int == be_bytes(data@, pos as int, n as int),
{
    let mut acc: u64 = 0;
    let mut i: usize = 0;
    while i < n
        invariant
            i <= n,
            n <= 8,
            pos + n <= data@.len(),
            acc as int == be_bytes(data@, pos as int, i as int),
        decreases n - i,
    {
        proof {
            vstd::slice::axiom_spec_len(data);
            lemma_be_bytes_bound(data@, pos as int, i as int);
            lemma_pow256_mono(i as int, 7);
            assert(pow256(7) == 0x100_0000_0000_0000) by {
                reveal_with_fuel(pow256, 8);
            }
        }
        acc = acc * 256 + (data[pos + i] as u64);
        i = i + 1;
    }
    acc
}

/// Read the two bytes at `pos` as a big-endian unsigned 16-bit value.
pub fn read_u16(data: &[u8], pos: usize) -> (r: u16)
    requires
        pos + 2 <= data@.len(),
    ensures
        r as int == be_bytes(data@, pos as int, 2),
{
    let v = read_be(data, pos, 2);
    proof {
        lemma_be_bytes_bound(data@, pos as int, 2);
        assert(pow256(2) == 0x1_0000) by {
            reveal_with_fuel(pow256, 3);
        }
    }
    v as u16
}

/// Read the four bytes at `pos` as a big-endian unsigned 32-bit value.
pub fn read_u32(data: &[u8], pos: usize) -> (r: u32)
    requires
        pos + 4 <= data@.len(),
    ensures
        r as int == be_bytes(data@, pos as int, 4),
{
    let v = read_be(data, pos, 4);
    proof {
        lemma_be_bytes_bound(data@, pos as int, 4);
        assert(pow256(4) == 0x1_0000_0000) by {
            reveal_with_fuel(pow256, 5);
        }
    }
    v as u32
}

/// Copy the bytes of the half-open range `start..end` into a fresh
/// vector.
pub fn copy_range(data: &[u8], start: usize, end: usize) -> (v: Vec<u8>)
    requires
        start <= end,
        end <= data@.len(),
    ensures
        v@ == data@.subrange(start as int, end as int),
{
    let mut v: Vec<u8> = Vec::new();
    let mut i: usize = start;
    while i < end
        invariant
            start <= i <= end,
            end <= data@.len(),
            v@ == data@.subrange(start as int, i as int),
        decreases end - i,
    {
        v.push(data[i]);
        i = i + 1;
        proof {
            assert(v@ =~= data@.subrange(start as int, i as int));
        }
    }
    v
}

/// Reinterpret an unsigned 8-bit value as two's-complement.
pub fn to_i8(u: u8) -> (r: i8)
    ensures
        r as int == sign8(u as int),
{
    if u < 0x80 {
        u as i8
    } else {
        i8::MIN + ((u - 0x80) as i8)
    }
}

/// Reinterpret an unsigned 16-bit value as two's-complement.
pub fn to_i16(u: u16) -> (r: i16)
    ensures
        r as int == sign16(u as int),
{
    if u < 0x8000 {
        u as i16
    } else {
        i16::MIN + ((u - 0x8000) as i16)
    }
}

/// Reinterpret an unsigned 32-bit value as two's-complement.
pub fn to_i32(u: u32) -> (r: i32)
    ensures
        r as int == sign32(u as int),
{
    if u < 0x8000_0000 {
        u as i32
    } else {
        i32::MIN + ((u - 0x8000_0000) as i32)
    }
}

/// Reinterpret an unsigned 64-bit value as two's-complement.
pub fn to_i64(u: u64) -> (r: i64)
    ensures
        r as int == sign64(u as int),
{
    if u < 0x8000_0000_0000_0000 {
        u as i64
    } else {
        i64::MIN + ((u - 0x8000_0000_0000_0000) as i64)
    }
}

} // verus!

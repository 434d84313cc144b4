//! Bits of numbers, told by division.

use vstd::prelude::*;

verus! {

/// Single bits of a number, its lowest bits and its halves.
pub(crate) proof fn lemma_bits(x: u64)
    ensures
        (x & 1 != 0) == (x % 2 == 1),
        (x & 2 != 0) == ((x / 2) % 2 == 1),
        (x & 4 != 0) == ((x / 4) % 2 == 1),
        (x & 8 != 0) == ((x / 8) % 2 == 1),
        (x & 128 != 0) == ((x / 128) % 2 == 1),
        (x & 0x4000 != 0) == ((x / 0x4000) % 2 == 1),
        (x & 0x8000 != 0) == ((x / 0x8000) % 2 == 1),
        (x & 0x2000_0000 != 0) == ((x / 0x2000_0000) % 2 == 1),
        x & 0xFFF == x % 0x1000,
        x as u8 == x % 0x100,
        x as u16 == x % 0x1_0000,
        x as u32 == x % 0x1_0000_0000,
        (x >> 32) as u32 == x / 0x1_0000_0000,
        ((x % 0x1_0000_0000) / 0x4000) % 2 == (x / 0x4000) % 2,
        ((x % 0x1_0000_0000) / 0x8000) % 2 == (x / 0x8000) % 2,
{
    assert({
        &&& (x & 1 != 0) == (x % 2 == 1)
        &&& (x & 2 != 0) == ((x / 2) % 2 == 1)
        &&& (x & 4 != 0) == ((x / 4) % 2 == 1)
        &&& (x & 8 != 0) == ((x / 8) % 2 == 1)
        &&& (x & 128 != 0) == ((x / 128) % 2 == 1)
        &&& (x & 0x4000 != 0) == ((x / 0x4000) % 2 == 1)
        &&& (x & 0x8000 != 0) == ((x / 0x8000) % 2 == 1)
        &&& (x & 0x2000_0000 != 0) == ((x / 0x2000_0000) % 2 == 1)
        &&& x & 0xFFF == x % 0x1000
        &&& x as u8 == x % 0x100
        &&& x as u16 == x % 0x1_0000
        &&& x as u32 == x % 0x1_0000_0000
        &&& (x >> 32) as u32 == x / 0x1_0000_0000
        &&& ((x % 0x1_0000_0000) / 0x4000) % 2 == (x / 0x4000) % 2
        &&& ((x % 0x1_0000_0000) / 0x8000) % 2 == (x / 0x8000) % 2
    }) by (bit_vector);
}

/// A number with one of its halves replaced.
pub(crate) proof fn lemma_replaced(v: u64, half: u32)
    ensures
        (v & 0xFFFF_FFFF_0000_0000) | (half as u64) == v / 0x1_0000_0000 * 0x1_0000_0000 + half,
        (v & 0xFFFF_FFFF) | ((half as u64) << 32) == v % 0x1_0000_0000 + half * 0x1_0000_0000,
{
    let wide = half as u64;
    assert((v & 0xFFFF_FFFF_0000_0000) | wide == v / 0x1_0000_0000 * 0x1_0000_0000 + wide && (v & 0xFFFF_FFFF) | (
    wide << 32) == v % 0x1_0000_0000 + wide * 0x1_0000_0000) by (bit_vector)
        requires
            wide <= 0xFFFF_FFFF,
    ;
}

pub(crate) proof fn lemma_low_bits(x: u64)
    ensures
        (x >> 2) & 7 == (x / 4) % 8,
        x & 1 == x % 2,
        x & 3 == x % 4,
        x & 0xf == x % 16,
{
    assert((x >> 2) & 7 == (x / 4) % 8 && x & 1 == x % 2 && x & 3 == x % 4 && x & 0xf == x % 16) by (bit_vector);
}

/// A power of two below 65536.
pub open spec fn power(x: int) -> bool {
    ||| x == 1 || x == 2 || x == 4 || x == 8 || x == 16 || x == 32 || x == 64 || x == 128
    ||| x == 256 || x == 512 || x == 1024 || x == 2048 || x == 4096 || x == 8192 || x == 16384 || x == 32768
}

pub(crate) proof fn lemma_power(x: u16)
    requires
        x > 0,
    ensures
        (x & (x - 1) as u16 == 0) == power(x as int),
{
    assert((x & (x - 1) as u16 == 0) == (x == 1 || x == 2 || x == 4 || x == 8 || x == 16 || x == 32 || x == 64 || x
        == 128 || x == 256 || x == 512 || x == 1024 || x == 2048 || x == 4096 || x == 8192 || x == 16384 || x
        == 32768)) by (bit_vector)
        requires
            x > 0,
    ;
}

} // verus!

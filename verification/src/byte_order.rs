//! Reading and writing fixed-width integers in byte slices.

use vstd::prelude::*;

verus! {

/// The number whose digits in base 256, lowest first, are the bytes of `s`.
pub open spec fn le_value(s: Seq<u8>) -> nat
    decreases s.len(),
{
    if s.len() == 0 {
        0
    } else {
        s[0] as nat + 256 * le_value(s.subrange(1, s.len() as int))
    }
}

/// The number whose digits in base 256, highest first, are the bytes of `s`.
pub open spec fn be_value(s: Seq<u8>) -> nat {
    le_value(s.reverse())
}

/// The lowest `n` base-256 digits of `v`, lowest first.
pub open spec fn le_bytes(v: nat, n: nat) -> Seq<u8>
    decreases n,
{
    if n == 0 {
        Seq::empty()
    } else {
        seq![(v % 256) as u8] + le_bytes(v / 256, (n - 1) as nat)
    }
}

/// The lowest `n` base-256 digits of `v`, highest first.
pub open spec fn be_bytes(v: nat, n: nat) -> Seq<u8> {
    le_bytes(v, n).reverse()
}

/// 256 to the power of `n`.
pub open spec fn pow256(n: nat) -> nat
    decreases n,
{
    if n == 0 {
        1
    } else {
        256 * pow256((n - 1) as nat)
    }
}

/// `s` cut or zero-filled to exactly `n` bytes.
pub open spec fn resized(s: Seq<u8>, n: nat) -> Seq<u8> {
    Seq::new(n, |i: int| if i < s.len() { s[i] } else { 0u8 })
}

/// `old` with as many bytes of `data` as fit written over its start.
pub open spec fn overwritten(old: Seq<u8>, data: Seq<u8>) -> Seq<u8> {
    Seq::new(old.len(), |i: int| if i < data.len() { data[i] } else { old[i] })
}

/// The bytes of `s` read as unsigned.
pub open spec fn as_unsigned(s: Seq<i8>) -> Seq<u8> {
    Seq::new(s.len(), |i: int| s[i] as u8)
}

pub proof fn lemma_pow256_values()
    ensures
        pow256(0) == 1,
        pow256(1) == 0x100,
        pow256(2) == 0x1_0000,
        pow256(3) == 0x100_0000,
        pow256(4) == 0x1_0000_0000,
        pow256(5) == 0x100_0000_0000,
        pow256(6) == 0x1_0000_0000_0000,
        pow256(7) == 0x100_0000_0000_0000,
        pow256(8) == 0x1_0000_0000_0000_0000,
{
    reveal_with_fuel(pow256, 10);
}

/// A number of `n` bytes is below 256 to the power of `n`.
pub proof fn lemma_le_value_bound(s: Seq<u8>)
    ensures
        le_value(s) < pow256(s.len()),
    decreases s.len(),
{
    if s.len() > 0 {
        lemma_le_value_bound(s.subrange(1, s.len() as int));
    }
}

pub proof fn lemma_le_bytes_len(v: nat, n: nat)
    ensures
        le_bytes(v, n).len() == n,
    decreases n,
{
    if n > 0 {
        lemma_le_bytes_len(v / 256, (n - 1) as nat);
    }
}

/// Reading back what was written: the number formed by the lowest `n` digits
/// of a `v` that fits in `n` digits is `v`.
pub proof fn law_le_value_of_bytes(v: nat, n: nat)
    requires
        v < pow256(n),
    ensures
        le_value(le_bytes(v, n)) == v,
    decreases n,
{
    lemma_le_bytes_len(v, n);
    if n > 0 {
        assert(v / 256 < pow256((n - 1) as nat));
        law_le_value_of_bytes(v / 256, (n - 1) as nat);
        lemma_le_bytes_len(v / 256, (n - 1) as nat);
        let s = le_bytes(v, n);
        assert(s.subrange(1, n as int) =~= le_bytes(v / 256, (n - 1) as nat));
    }
}

/// Writing back what was read: the digits of the number formed by `s` are `s`.
pub proof fn law_le_bytes_of_value(s: Seq<u8>)
    ensures
        le_bytes(le_value(s), s.len()) =~= s,
    decreases s.len(),
{
    if s.len() > 0 {
        let t = s.subrange(1, s.len() as int);
        law_le_bytes_of_value(t);
        let v = le_value(s);
        assert(v == s[0] as nat + 256 * le_value(t));
        assert(v % 256 == s[0] as nat);
        assert(v / 256 == le_value(t));
        assert(seq![s[0]] + t =~= s);
    }
}

/// The number formed by the first `width` bytes of `input`, missing bytes
/// counting as zero.
fn decode_le(input: &[u8], width: usize) -> (v: u64)
    requires
        width <= 8,
    ensures
        v == le_value(resized(input@, width as nat)),
        v < pow256(width as nat),
{
    let ghost s = resized(input@, width as nat);
    let mut v: u64 = 0;
    let mut i: usize = width;
    proof {
        lemma_pow256_values();
        assert(s.subrange(width as int, width as int) =~= Seq::empty());
    }
    while i > 0
        invariant
            i <= width <= 8,
            s == resized(input@, width as nat),
            v == le_value(s.subrange(i as int, width as int)),
            v < pow256((width - i) as nat),
            pow256(8) == 0x1_0000_0000_0000_0000,
        decreases i,
    {
        i -= 1;
        let b: u8 = if i < input.len() { input[i] } else { 0 };
        proof {
            let t = s.subrange(i as int, width as int);
            assert(t.subrange(1, t.len() as int) =~= s.subrange(i + 1, width as int));
            assert(t[0] == b);
            lemma_le_value_bound(t);
            lemma_pow256_monotonic((width - i) as nat, 8);
        }
        v = b as u64 + 256 * v;
    }
    assert(s.subrange(0, width as int) =~= s);
    v
}

pub proof fn lemma_pow256_monotonic(a: nat, b: nat)
    requires
        a <= b,
    ensures
        pow256(a) <= pow256(b),
    decreases b,
{
    if a < b {
        lemma_pow256_monotonic(a, (b - 1) as nat);
    }
}

/// The lowest `width` digits of `n`, lowest first.
pub fn encode_le(n: u64, width: usize) -> (r: Vec<u8>)
    ensures
        r@ == le_bytes(n as nat, width as nat),
{
    let mut r: Vec<u8> = Vec::new();
    let mut v: u64 = n;
    let mut i: usize = 0;
    while i < width
        invariant
            i <= width,
            le_bytes(n as nat, width as nat) == r@ + le_bytes(v as nat, (width - i) as nat),
        decreases width - i,
    {
        let ghost before = r@;
        r.push((v % 256) as u8);
        proof {
            assert(before + (seq![(v % 256) as u8] + le_bytes((v / 256) as nat, (width - i - 1) as nat))
                =~= r@ + le_bytes((v / 256) as nat, (width - i - 1) as nat));
        }
        v = v / 256;
        i += 1;
    }
    assert(r@ + le_bytes(v as nat, 0) =~= r@);
    r
}

/// Copies as much of `data` as fits to the start of `buf`.
fn write_prefix(buf: &mut [u8], data: &Vec<u8>)
    ensures
        final(buf)@ == overwritten(old(buf)@, data@),
{
    let mut i: usize = 0;
    while i < buf.len() && i < data.len()
        invariant
            i <= buf@.len(),
            i <= data@.len(),
            buf@.len() == old(buf)@.len(),
            forall|j: int| 0 <= j < buf@.len() ==> #[trigger] buf@[j] == (if j < i {
                data@[j]
            } else {
                old(buf)@[j]
            }),
        decreases data@.len() - i,
    {
        buf[i] = data[i];
        i += 1;
    }
    assert(buf@ =~= overwritten(old(buf)@, data@));
}

/// `data` back to front.
fn reversed(data: &[u8]) -> (r: Vec<u8>)
    ensures
        r@ == data@.reverse(),
{
    let mut r: Vec<u8> = Vec::new();
    let mut i: usize = data.len();
    while i > 0
        invariant
            i <= data@.len(),
            r@ == data@.reverse().subrange(0, data@.len() - i),
        decreases i,
    {
        i -= 1;
        r.push(data[i]);
        assert(r@ =~= data@.reverse().subrange(0, data@.len() - i));
    }
    assert(data@.reverse().subrange(0, data@.len() as int) =~= data@.reverse());
    r
}

/// `input` cut or zero-filled to `width` bytes, back to front.
fn resized_reversed(input: &[u8], width: usize) -> (r: Vec<u8>)
    ensures
        r@ == resized(input@, width as nat).reverse(),
{
    let mut r: Vec<u8> = Vec::new();
    let mut i: usize = 0;
    while i < width
        invariant
            i <= width,
            r@ == resized(input@, width as nat).subrange(0, i as int),
        decreases width - i,
    {
        let b: u8 = if i < input.len() { input[i] } else { 0 };
        r.push(b);
        i += 1;
        assert(r@ =~= resized(input@, width as nat).subrange(0, i as int));
    }
    assert(r@ =~= resized(input@, width as nat));
    reversed(r.as_slice())
}

/// Reads a little-endian `u16`; missing bytes are zero, extra bytes ignored.
pub fn read_le_u16(input: &[u8]) -> (r: u16)
    ensures
        r == le_value(resized(input@, 2)),
{
    proof {
        lemma_pow256_values();
    }
    decode_le(input, 2) as u16
}

/// Reads a little-endian `u32`; missing bytes are zero, extra bytes ignored.
pub fn read_le_u32(input: &[u8]) -> (r: u32)
    ensures
        r == le_value(resized(input@, 4)),
{
    proof {
        lemma_pow256_values();
    }
    decode_le(input, 4) as u32
}

/// Reads a little-endian `u64`; missing bytes are zero, extra bytes ignored.
pub fn read_le_u64(input: &[u8]) -> (r: u64)
    ensures
        r == le_value(resized(input@, 8)),
{
    decode_le(input, 8)
}

/// Reads a little-endian `i32` in two's complement; missing bytes are zero,
/// extra bytes ignored.
pub fn read_le_i32(input: &[i8]) -> (r: i32)
    ensures
        r == le_value(resized(as_unsigned(input@), 4)) as u32 as i32,
{
    let mut bytes: Vec<u8> = Vec::new();
    let mut i: usize = 0;
    while i < input.len()
        invariant
            i <= input@.len(),
            bytes@ == as_unsigned(input@).subrange(0, i as int),
        decreases input@.len() - i,
    {
        bytes.push(input[i] as u8);
        i += 1;
        assert(bytes@ =~= as_unsigned(input@).subrange(0, i as int));
    }
    assert(bytes@ =~= as_unsigned(input@));
    read_le_u32(bytes.as_slice()) as i32
}

/// Reads a big-endian `u16`; missing bytes are zero, extra bytes ignored.
pub fn read_be_u16(input: &[u8]) -> (r: u16)
    ensures
        r == be_value(resized(input@, 2)),
{
    let bytes = resized_reversed(input, 2);
    assert(resized(bytes@, 2) =~= bytes@);
    read_le_u16(bytes.as_slice())
}

/// Reads a big-endian `u32`; missing bytes are zero, extra bytes ignored.
pub fn read_be_u32(input: &[u8]) -> (r: u32)
    ensures
        r == be_value(resized(input@, 4)),
{
    let bytes = resized_reversed(input, 4);
    assert(resized(bytes@, 4) =~= bytes@);
    read_le_u32(bytes.as_slice())
}

/// Writes as much of `n` in little-endian order as fits into `buf`.
pub fn write_le_u16(buf: &mut [u8], n: u16)
    ensures
        final(buf)@ == overwritten(old(buf)@, le_bytes(n as nat, 2)),
{
    let bytes = encode_le(n as u64, 2);
    write_prefix(buf, &bytes);
}

/// Writes as much of `n` in little-endian order as fits into `buf`.
pub fn write_le_u32(buf: &mut [u8], n: u32)
    ensures
        final(buf)@ == overwritten(old(buf)@, le_bytes(n as nat, 4)),
{
    let bytes = encode_le(n as u64, 4);
    write_prefix(buf, &bytes);
}

/// Writes as much of `n` in little-endian order as fits into `buf`.
pub fn write_le_u64(buf: &mut [u8], n: u64)
    ensures
        final(buf)@ == overwritten(old(buf)@, le_bytes(n as nat, 8)),
{
    let bytes = encode_le(n, 8);
    write_prefix(buf, &bytes);
}

/// Writes as much of `n` in little-endian two's complement as fits into `buf`.
pub fn write_le_i32(buf: &mut [i8], n: i32)
    ensures
        final(buf)@.len() == old(buf)@.len(),
        forall|j: int|
            0 <= j < old(buf)@.len() ==> #[trigger] final(buf)@[j] == (if j < 4 {
                le_bytes(n as u32 as nat, 4)[j] as i8
            } else {
                old(buf)@[j]
            }),
{
    let bytes = encode_le(n as u32 as u64, 4);
    proof {
        lemma_le_bytes_len(n as u32 as nat, 4);
    }
    let mut i: usize = 0;
    while i < buf.len() && i < bytes.len()
        invariant
            bytes@ == le_bytes(n as u32 as nat, 4),
            bytes@.len() == 4,
            i <= buf@.len(),
            i <= 4,
            buf@.len() == old(buf)@.len(),
            forall|j: int| 0 <= j < buf@.len() ==> #[trigger] buf@[j] == (if j < i {
                bytes@[j] as i8
            } else {
                old(buf)@[j]
            }),
        decreases 4 - i,
    {
        buf[i] = bytes[i] as i8;
        i += 1;
    }
}

/// Writes as much of `n` in big-endian order as fits into `buf`.
pub fn write_be_u16(buf: &mut [u8], n: u16)
    ensures
        final(buf)@ == overwritten(old(buf)@, be_bytes(n as nat, 2)),
{
    let bytes = encode_le(n as u64, 2);
    let bytes = reversed(bytes.as_slice());
    write_prefix(buf, &bytes);
}

/// Writes as much of `n` in big-endian order as fits into `buf`.
pub fn write_be_u32(buf: &mut [u8], n: u32)
    ensures
        final(buf)@ == overwritten(old(buf)@, be_bytes(n as nat, 4)),
{
    let bytes = encode_le(n as u64, 4);
    let bytes = reversed(bytes.as_slice());
    write_prefix(buf, &bytes);
}

/// What `write_le_u16` puts into a buffer that is long enough,
/// `read_le_u16` gives back.
pub proof fn law_u16_round_trip(old: Seq<u8>, n: u16)
    requires
        old.len() >= 2,
    ensures
        le_value(resized(overwritten(old, le_bytes(n as nat, 2)), 2)) == n,
{
    lemma_pow256_values();
    lemma_le_bytes_len(n as nat, 2);
    law_le_value_of_bytes(n as nat, 2);
    assert(resized(overwritten(old, le_bytes(n as nat, 2)), 2) =~= le_bytes(n as nat, 2));
}

/// What `write_le_u32` puts into a buffer that is long enough,
/// `read_le_u32` gives back.
pub proof fn law_u32_round_trip(old: Seq<u8>, n: u32)
    requires
        old.len() >= 4,
    ensures
        le_value(resized(overwritten(old, le_bytes(n as nat, 4)), 4)) == n,
{
    lemma_pow256_values();
    lemma_le_bytes_len(n as nat, 4);
    law_le_value_of_bytes(n as nat, 4);
    assert(resized(overwritten(old, le_bytes(n as nat, 4)), 4) =~= le_bytes(n as nat, 4));
}

/// What `write_le_u64` puts into a buffer that is long enough,
/// `read_le_u64` gives back.
pub proof fn law_u64_round_trip(old: Seq<u8>, n: u64)
    requires
        old.len() >= 8,
    ensures
        le_value(resized(overwritten(old, le_bytes(n as nat, 8)), 8)) == n,
{
    lemma_pow256_values();
    lemma_le_bytes_len(n as nat, 8);
    law_le_value_of_bytes(n as nat, 8);
    assert(resized(overwritten(old, le_bytes(n as nat, 8)), 8) =~= le_bytes(n as nat, 8));
}

/// What `write_be_u32` puts into a buffer that is long enough,
/// `read_be_u32` gives back.
pub proof fn law_be_u32_round_trip(old: Seq<u8>, n: u32)
    requires
        old.len() >= 4,
    ensures
        be_value(resized(overwritten(old, be_bytes(n as nat, 4)), 4)) == n,
{
    lemma_pow256_values();
    lemma_le_bytes_len(n as nat, 4);
    law_le_value_of_bytes(n as nat, 4);
    let b = be_bytes(n as nat, 4);
    assert(resized(overwritten(old, b), 4) =~= b);
    assert(b.reverse() =~= le_bytes(n as nat, 4));
}

/// What `write_be_u16` puts into a buffer that is long enough,
/// `read_be_u16` gives back.
pub proof fn law_be_u16_round_trip(old: Seq<u8>, n: u16)
    requires
        old.len() >= 2,
    ensures
        be_value(resized(overwritten(old, be_bytes(n as nat, 2)), 2)) == n,
{
    lemma_pow256_values();
    lemma_le_bytes_len(n as nat, 2);
    law_le_value_of_bytes(n as nat, 2);
    let b = be_bytes(n as nat, 2);
    assert(resized(overwritten(old, b), 2) =~= b);
    assert(b.reverse() =~= le_bytes(n as nat, 2));
}

} // verus!

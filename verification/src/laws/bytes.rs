//! Numbers in buffers, streams of bytes, and guest addresses.

use vstd::prelude::*;

use crate::byte_order::{
    le_value, read_be_u16, read_be_u32, read_le_u16, read_le_u32, read_le_u64, resized, write_be_u16,
    write_be_u32, write_le_u16, write_le_u32, write_le_u64,
};
use crate::config::parse_usize;
use crate::devices::virtio::bindings::win_to_linux_errno;
use crate::laws::memory::{
    digits, law_bytes_add_up, law_numbers_are_little_endian, lemma_digits, lemma_digits_of,
};
use crate::laws::text::{
    all_digits, law_decimal_text, law_hexadecimal_digits, law_hexadecimal_text, number, pow16,
};
use crate::memory::memory::{GuestAddress, MemoryPerms};
use crate::terminal::{stdin_step, stripped, strip_cpr_responses, StdinAction, StdinEvent};
use crate::text::{decimal, hex, hex_min};
use crate::vm_memory::io::{
    Cursor, IoOutcome, SliceReader, SliceWriter, Transfer, TransferStep, VolatileMemoryError,
};
use crate::vm_memory::mmap::{GuestRegionMmap, RegionAccessError};

verus! {

/// A byte of a buffer; what is missing counts as zero.
pub open spec fn byte(s: Seq<u8>, i: int) -> int {
    if i < s.len() {
        s[i] as int
    } else {
        0
    }
}

proof fn lemma_value(s: Seq<u8>, n: nat)
    requires
        n == 2 || n == 4 || n == 8,
    ensures
        n == 2 ==> le_value(resized(s, n)) == byte(s, 0) + 0x100 * byte(s, 1),
        n == 4 ==> le_value(resized(s, n)) == byte(s, 0) + 0x100 * byte(s, 1) + 0x1_0000 * byte(s, 2) + 0x100_0000
            * byte(s, 3),
        n == 8 ==> le_value(resized(s, n)) == byte(s, 0) + 0x100 * byte(s, 1) + 0x1_0000 * byte(s, 2) + 0x100_0000
            * byte(s, 3) + 0x1_0000_0000 * byte(s, 4) + 0x100_0000_0000 * byte(s, 5) + 0x1_0000_0000_0000 * byte(
            s,
            6,
        ) + 0x100_0000_0000_0000 * byte(s, 7),
{
    let t = resized(s, n);
    assert(t.len() == n);
    assert forall|i: int| 0 <= i < n implies #[trigger] t[i] == byte(s, i) by {}
    lemma_digits(t, 0, n);
    assert(t.subrange(0, n as int) =~= t);
    reveal_with_fuel(digits, 9);
    if n == 2 {
        assert(digits(t, 0, 2) == t[0] + 256 * (t[1] + 256 * 0));
    }
    law_numbers_are_little_endian(t, 0);
}

/// Numbers are read from a buffer lowest byte first, or highest byte first.
pub proof fn law_numbers_read(s: &[u8], a: u16, b: u32, c: u64, d: u16, e: u32)
    requires
        call_ensures(read_le_u16, (s,), a),
        call_ensures(read_le_u32, (s,), b),
        call_ensures(read_le_u64, (s,), c),
        call_ensures(read_be_u16, (s,), d),
        call_ensures(read_be_u32, (s,), e),
    ensures
        a == byte(s@, 0) + 0x100 * byte(s@, 1),
        b == byte(s@, 0) + 0x100 * byte(s@, 1) + 0x1_0000 * byte(s@, 2) + 0x100_0000 * byte(s@, 3),
        c == byte(s@, 0) + 0x100 * byte(s@, 1) + 0x1_0000 * byte(s@, 2) + 0x100_0000 * byte(s@, 3)
            + 0x1_0000_0000 * byte(s@, 4) + 0x100_0000_0000 * byte(s@, 5) + 0x1_0000_0000_0000 * byte(s@, 6)
            + 0x100_0000_0000_0000 * byte(s@, 7),
        d == byte(s@, 1) + 0x100 * byte(s@, 0),
        e == byte(s@, 3) + 0x100 * byte(s@, 2) + 0x1_0000 * byte(s@, 1) + 0x100_0000 * byte(s@, 0),
{
    lemma_value(s@, 2);
    lemma_value(s@, 4);
    lemma_value(s@, 8);
    let t = resized(s@, 2).reverse();
    assert(resized(t, 2) =~= t);
    lemma_value(t, 2);
    let u = resized(s@, 4).reverse();
    assert(resized(u, 4) =~= u);
    lemma_value(u, 4);
}

/// Numbers are written to a buffer lowest byte first; what lies behind them
/// stays.
pub proof fn law_numbers_written(
    p: &mut [u8],
    q: &mut [u8],
    s: &mut [u8],
    a: u16,
    b: u32,
    c: u64,
    j: int,
)
    requires
        call_ensures(write_le_u16, (p, a), ()),
        call_ensures(write_le_u32, (q, b), ()),
        call_ensures(write_le_u64, (s, c), ()),
    ensures
        final(p)@.len() == old(p)@.len(),
        final(q)@.len() == old(q)@.len(),
        final(s)@.len() == old(s)@.len(),
        old(p)@.len() >= 2 ==> digits(final(p)@, 0, 2) == a,
        old(q)@.len() >= 4 ==> digits(final(q)@, 0, 4) == b,
        old(s)@.len() >= 8 ==> digits(final(s)@, 0, 8) == c,
        2 <= j < old(p)@.len() ==> final(p)@[j] == old(p)@[j],
        4 <= j < old(q)@.len() ==> final(q)@[j] == old(q)@[j],
        8 <= j < old(s)@.len() ==> final(s)@[j] == old(s)@[j],
{
    law_bytes_add_up(a as nat, 2);
    law_bytes_add_up(b as nat, 4);
    law_bytes_add_up(c as nat, 8);
    if old(p)@.len() >= 2 {
        lemma_digits_of(final(p)@, crate::byte_order::le_bytes(a as nat, 2), 0, 0, 2);
    }
    if old(q)@.len() >= 4 {
        lemma_digits_of(final(q)@, crate::byte_order::le_bytes(b as nat, 4), 0, 0, 4);
    }
    if old(s)@.len() >= 8 {
        lemma_digits_of(final(s)@, crate::byte_order::le_bytes(c as nat, 8), 0, 0, 8);
    }
}

/// Or highest byte first.
pub proof fn law_big_endian_written(p: &mut [u8], q: &mut [u8], a: u16, b: u32)
    requires
        call_ensures(write_be_u16, (p, a), ()),
        call_ensures(write_be_u32, (q, b), ()),
    ensures
        old(p)@.len() >= 2 ==> final(p)@[1] + 0x100 * final(p)@[0] == a,
        old(q)@.len() >= 4 ==> final(q)@[3] + 0x100 * final(q)@[2] + 0x1_0000 * final(q)@[1] + 0x100_0000
            * final(q)@[0] == b,
{
    law_bytes_add_up(a as nat, 2);
    law_bytes_add_up(b as nat, 4);
    law_numbers_are_little_endian(crate::byte_order::le_bytes(a as nat, 2), 0);
    law_numbers_are_little_endian(crate::byte_order::le_bytes(b as nat, 4), 0);
}

/// Text for numbers: it reads as the number.
pub proof fn law_numbers_as_text(v: u64, width: usize, d: String, h: String, m: String)
    requires
        call_ensures(decimal, (v,), d),
        call_ensures(hex, (v, width), h),
        call_ensures(hex_min, (v,), m),
    ensures
        all_digits(d@, 10) && number(d@, 10) == v,
        all_digits(m@, 16) && number(m@, 16) == v,
        v > 0 ==> d@[0] != '0' && m@[0] != '0',
        h@.len() == width && all_digits(h@, 16) && number(h@, 16) == v as int % pow16(width as nat),
{
    law_decimal_text(v as nat);
    law_hexadecimal_text(v as nat);
    law_hexadecimal_digits(v as nat, width as nat);
}

/// What is typed on the host: up to the ending key it reaches the guest without
/// the terminal's reports; the end of the input and a failure end it too.
pub proof fn law_input_forwarded(event: &StdinEvent, r: StdinAction, bytes: &[u8], s: Vec<u8>, k: int)
    requires
        call_ensures(stdin_step, (event,), r),
        call_ensures(strip_cpr_responses, (bytes,), s),
    ensures
        s@ == stripped(bytes@, 0),
        *event matches StdinEvent::Data(d) ==> {
            &&& 0 <= k < d@.len() && d@[k] == 0x1d && (forall|j: int| 0 <= j < k ==> #[trigger] d@[j] != 0x1d)
                ==> r.shutdown && r.done && r.forward@ == stripped(d@.subrange(0, k), 0)
            &&& (forall|j: int| 0 <= j < d@.len() ==> #[trigger] d@[j] != 0x1d) ==> !r.shutdown && !r.done
                && r.forward@ == stripped(d@, 0)
        },
        !(*event is Data) ==> r.done && !r.shutdown && r.forward@.len() == 0,
{
    if let StdinEvent::Data(d) = *event {
        if 0 <= k < d@.len() && d@[k] == 0x1d && (forall|j: int| 0 <= j < k ==> #[trigger] d@[j] != 0x1d) {
            crate::laws::text::law_ending_key(d@, k);
        }
        if forall|j: int| 0 <= j < d@.len() ==> #[trigger] d@[j] != 0x1d {
            crate::laws::text::law_ending_key(d@, d@.len() as int);
            assert(d@.subrange(0, d@.len() as int) =~= d@);
        }
    }
}

/// A stream of bytes gives them in order, as many as there is room for, and goes
/// on where it stopped.
pub proof fn law_stream_read(a: &mut SliceReader, buf: &mut Vec<u8>, r: usize, i: int)
    requires
        call_ensures(SliceReader::read_volatile, (a, buf), r),
    ensures
        r <= old(buf)@.len() && r <= old(a).rest@.len(),
        r == old(buf)@.len() || r == old(a).rest@.len(),
        final(buf)@.len() == old(buf)@.len(),
        0 <= i < r ==> final(buf)@[i] == old(a).rest@[i],
        r <= i < old(buf)@.len() ==> final(buf)@[i] == old(buf)@[i],
        final(a).rest@.len() == old(a).rest@.len() - r,
        0 <= i < old(a).rest@.len() - r ==> final(a).rest@[i] == old(a).rest@[r + i],
{
}

/// A stream of bytes takes them in order, as many as it has room for, behind
/// what it has.
pub proof fn law_stream_written(a: &mut SliceWriter, buf: &[u8], r: usize, i: int)
    requires
        old(a).wf(),
        call_ensures(SliceWriter::write_volatile, (a, buf), r),
    ensures
        r <= buf@.len() && old(a).written + r <= old(a).target@.len(),
        r == buf@.len() || old(a).written + r == old(a).target@.len(),
        final(a).written == old(a).written + r,
        final(a).target@.len() == old(a).target@.len(),
        0 <= i < old(a).target@.len() ==> final(a).target@[i] == (if old(a).written <= i < old(a).written + r {
            buf@[i - old(a).written]
        } else {
            old(a).target@[i]
        }),
{
}

/// A part of mapped memory is its bytes from the offset on, if it has as many.
pub proof fn law_part_of_a_mapping(
    m: &GuestRegionMmap,
    offset: u64,
    count: usize,
    r: Result<&[u8], RegionAccessError>,
    i: int,
)
    requires
        call_ensures(GuestRegionMmap::get_slice, (m, offset, count), r),
    ensures
        r is Ok <==> offset + count <= m.mapping.bytes@.len(),
        r matches Ok(part) ==> part@.len() == count && (0 <= i < count ==> part@[i] == m.mapping.bytes@[offset + i]),
{
}

/// Address arithmetic: checked, wrapping, and back.
pub proof fn law_address_arithmetic(
    a: &GuestAddress,
    n: u64,
    sum: Option<GuestAddress>,
    wrapped: (GuestAddress, bool),
    difference: Option<GuestAddress>,
    offset: Option<u64>,
    base: GuestAddress,
)
    requires
        call_ensures(GuestAddress::checked_add, (a, n), sum),
        call_ensures(GuestAddress::overflowing_add, (a, n), wrapped),
        call_ensures(GuestAddress::checked_sub, (a, n), difference),
        call_ensures(GuestAddress::checked_offset_from, (a, base), offset),
    ensures
        sum is Some <==> a.0 + n < 0x1_0000_0000_0000_0000,
        sum matches Some(s) ==> s.0 - n == a.0,
        wrapped.1 == (sum is None),
        wrapped.0.0 == (if wrapped.1 {
            a.0 + n - 0x1_0000_0000_0000_0000
        } else {
            a.0 + n
        }),
        difference is Some <==> n <= a.0,
        difference matches Some(d) ==> d.0 + n == a.0,
        offset is Some <==> base.0 <= a.0,
        offset matches Some(o) ==> base.0 + o == a.0,
{
}

/// Permissions: one for reading, two for writing, four for executing; and they
/// allow what asks for no more.
pub proof fn law_permissions(p: &MemoryPerms, q: MemoryPerms, flags: u32, b: bool)
    requires
        call_ensures(MemoryPerms::to_flags, (p,), flags),
        call_ensures(MemoryPerms::contains, (p, q), b),
    ensures
        (flags % 2 == 1) == p.read,
        ((flags / 2) % 2 == 1) == p.write,
        ((flags / 4) % 2 == 1) == p.execute,
        flags < 8,
        b == !(q.read && !p.read || q.write && !p.write || q.execute && !p.execute),
{
}

/// The Linux error number for an error of the host: those that have a
/// counterpart, and five for all others.
pub proof fn law_error_numbers(code: u32, r: i32)
    requires
        call_ensures(win_to_linux_errno, (code,), r),
    ensures
        r == 0 <==> code == 0,
        r == 1 <==> code == 1 || code == 1314,
        r == 2 <==> code == 2 || code == 3,
        r == 6 <==> code == 6 || code == 21,
        r == 12 <==> code == 8 || code == 14,
        r == 13 <==> code == 5,
        r == 17 <==> code == 80 || code == 183,
        r == 22 <==> code == 87 || code == 161,
        r == 24 <==> code == 4,
        r == 28 <==> code == 112,
        r == 38 <==> code == 120,
        r == 39 <==> code == 145,
        r == 61 <==> code == 4331,
        r != 0 && r != 1 && r != 2 && r != 6 && r != 12 && r != 13 && r != 17 && r != 22 && r != 24 && r != 28
            && r != 38 && r != 39 && r != 61 ==> r == 5,
{
}

/// A decimal number is read back by the settings.
pub proof fn law_setting_read_back(v: usize, text: &[u8], r: Option<usize>)
    requires
        text@.len() == crate::text::dec_text(v as nat).len(),
        forall|i: int| 0 <= i < text@.len() ==> #[trigger] text@[i] == crate::text::dec_text(v as nat)[i] as u8,
        call_ensures(parse_usize, (text,), r),
    ensures
        r == Some(v),
{
    crate::laws::text::law_decimal_is_read_back(v);
    let t = crate::text::dec_text(v as nat);
    assert(text@ =~= Seq::new(t.len(), |i: int| t[i] as u8));
}

/// A cursor reads and writes from its position on, as far as its bytes go, and
/// moves on by as much.
pub proof fn law_cursor_moves(a: &mut Cursor, buf: &mut Vec<u8>, r: usize, b: &mut Cursor, data: &[u8], s: usize, i: int)
    requires
        call_ensures(Cursor::read_volatile, (a, buf), r),
        call_ensures(Cursor::write_volatile, (b, data), s),
        old(a).position <= old(a).inner@.len(),
        old(b).position <= old(b).inner@.len(),
    ensures
        r <= old(buf)@.len() && old(a).position + r <= old(a).inner@.len(),
        r == old(buf)@.len() || old(a).position + r == old(a).inner@.len(),
        0 <= i < r ==> final(buf)@[i] == old(a).inner@[old(a).position + i],
        r <= i < old(buf)@.len() ==> final(buf)@[i] == old(buf)@[i],
        final(a).position == old(a).position + r,
        s <= data@.len() && old(b).position + s <= old(b).inner@.len(),
        s == data@.len() || old(b).position + s == old(b).inner@.len(),
        final(b).inner@.len() == old(b).inner@.len(),
        0 <= i < old(b).inner@.len() ==> final(b).inner@[i] == (if old(b).position <= i < old(b).position + s {
            data@[i - old(b).position]
        } else {
            old(b).inner@[i]
        }),
        final(b).position == old(b).position + s,
{
}

/// A whole transfer takes what it is told, and fails if the stream ends first.
pub proof fn law_whole_transfers(
    a: &mut SliceReader,
    buf: &mut Vec<u8>,
    r: Result<(), VolatileMemoryError>,
    b: &mut SliceWriter,
    data: &[u8],
    s: Result<(), VolatileMemoryError>,
    i: int,
)
    requires
        old(b).wf(),
        call_ensures(SliceReader::read_exact_volatile, (a, buf), r),
        call_ensures(SliceWriter::write_all_volatile, (b, data), s),
    ensures
        r is Ok <==> old(buf)@.len() <= old(a).rest@.len(),
        r is Ok ==> final(buf)@.len() == old(buf)@.len(),
        r is Ok && 0 <= i < old(buf)@.len() ==> final(buf)@[i] == old(a).rest@[i],
        r is Err ==> final(buf)@ == old(buf)@,
        s is Ok <==> old(b).written + data@.len() <= old(b).target@.len(),
        s is Ok ==> final(b).written == old(b).written + data@.len(),
        s is Ok && 0 <= i < data@.len() ==> final(b).target@[old(b).written + i] == data@[i],
{
}

/// A transfer in steps, told of its own operation.
pub proof fn law_transfer_stepped(t: &mut Transfer, outcome: IoOutcome, r: TransferStep)
    requires
        old(t).done < old(t).total,
        call_ensures(Transfer::step, (t, outcome), r),
    ensures
        outcome is Interrupted ==> *final(t) == *old(t) && r == (TransferStep::Move { offset: old(t).done }),
        outcome is Failed ==> r == TransferStep::Fail(VolatileMemoryError::Failed),
        outcome matches IoOutcome::Moved(n) ==> {
            &&& n == 0 ==> r is Fail
            &&& 0 < n && old(t).done + n < old(t).total ==> final(t).done == old(t).done + n && (
            r matches TransferStep::Move { offset } && offset == old(t).done + n)
            &&& 0 < n && old(t).done + n == old(t).total ==> r is Done
        },
{
    crate::laws::machine::law_transfer_steps(*old(t), outcome);
}

} // verus!

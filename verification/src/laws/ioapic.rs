//! What the guest writes to the I/O APIC and which interrupts come of it.

use vstd::prelude::*;

use crate::byte_order::le_value;
use crate::devices::legacy::ioapic::{
    entry_info, entry_written, pending, request_for, InterruptRequest, IoApicModel,
};
use crate::laws::bits::lemma_bits;
use crate::laws::memory::{digits, lemma_digits};

verus! {

/// An interrupt as an entry asks for it: `low` and `high` are the entry's
/// halves.
pub open spec fn asked_for(r: InterruptRequest, low: int, high: int) -> bool {
    let mode = (low / 0x100) % 8;
    let kind: int = if mode == 1 || mode == 4 || mode == 5 {
        mode
    } else {
        0
    };
    &&& r.vector == low % 0x100
    &&& r.bitfield == kind + 0x100 * ((low / 0x800) % 2) + 0x1000 * ((low / 0x8000) % 2)
    &&& r.destination == (high / 0x100_0000) % 0x100
}

proof fn lemma_fields(entry: u64)
    ensures
        ({
            let low = entry % 0x1_0000_0000;
            let high = entry / 0x1_0000_0000;
            let info = entry_info(entry);
            &&& info.vector == low % 0x100
            &&& info.delivery_mode == (low / 0x100) % 8
            &&& info.dest_mode == (low / 0x800) % 2
            &&& info.trig_mode == (low / 0x8000) % 2
            &&& info.masked == ((low / 0x1_0000) % 2 == 1)
            &&& info.dest_idx == (high / 0x100_0000) % 0x100
            &&& low % 0x100 == entry % 0x100
            &&& (low / 0x100) % 8 == (entry / 0x100) % 8
            &&& (low / 0x800) % 2 == (entry / 0x800) % 2
            &&& (low / 0x8000) % 2 == (entry / 0x8000) % 2
            &&& (low / 0x1_0000) % 2 == (entry / 0x1_0000) % 2
            &&& (high / 0x100_0000) % 0x100 == entry / 0x100_0000_0000_0000
        }),
{
    assert({
        let low = entry % 0x1_0000_0000;
        let high = entry / 0x1_0000_0000;
        &&& (entry & 0xff) as u8 == low % 0x100
        &&& ((entry >> 8) & 0x7) as u8 == (low / 0x100) % 8
        &&& ((entry >> 11) & 1) as u8 == (low / 0x800) % 2
        &&& ((entry >> 15) & 1) as u8 == (low / 0x8000) % 2
        &&& (((entry >> 16) & 1) != 0) == ((low / 0x1_0000) % 2 == 1)
        &&& ((entry >> 56) & 0xff) as u8 == (high / 0x100_0000) % 0x100
        &&& low % 0x100 == entry % 0x100
        &&& (low / 0x100) % 8 == (entry / 0x100) % 8
        &&& (low / 0x800) % 2 == (entry / 0x800) % 2
        &&& (low / 0x8000) % 2 == (entry / 0x8000) % 2
        &&& (low / 0x1_0000) % 2 == (entry / 0x1_0000) % 2
        &&& (high / 0x100_0000) % 0x100 == entry / 0x100_0000_0000_0000
    }) by (bit_vector);
}

pub(crate) proof fn lemma_entry_fields(entry: u64)
    ensures
        ({
            let info = entry_info(entry);
            &&& info.vector == entry % 0x100
            &&& info.delivery_mode == (entry / 0x100) % 8
            &&& info.dest_mode == (entry / 0x800) % 2
            &&& info.trig_mode == (entry / 0x8000) % 2
            &&& info.masked == ((entry / 0x1_0000) % 2 == 1)
            &&& info.dest_idx == entry / 0x100_0000_0000_0000
        }),
{
    lemma_fields(entry);
}

proof fn lemma_bitfield(kind: u8, dest: u8, trig: u8)
    by (bit_vector)
    requires
        kind < 8,
        dest < 2,
        trig < 2,
    ensures
        kind as u64 | ((dest as u64) << 8) | ((trig as u64) << 12) == kind as u64 + 0x100 * (dest as u64)
            + 0x1000 * (trig as u64),
{
}

/// The interrupt for an entry carries the entry's fields.
pub proof fn law_request_carries_the_entry(entry: u64)
    ensures
        asked_for(
            request_for(entry_info(entry)),
            (entry % 0x1_0000_0000) as int,
            (entry / 0x1_0000_0000) as int,
        ),
{
    lemma_fields(entry);
    let info = entry_info(entry);
    let kind = crate::devices::legacy::ioapic::interrupt_type(info.delivery_mode);
    lemma_bitfield(kind, info.dest_mode, info.trig_mode);
}

/// Writing one half of an entry: the other half stays, but for the bit that
/// tells that an interrupt waits for its acknowledgement, which an
/// edge-triggered entry never has; and the half is what was written, but for
/// that bit and the delivery status.
pub proof fn law_halves(entry: u64, val: u32)
    ensures
        ({
            let w = entry_written(entry, false, val);
            let low = w % 0x1_0000_0000;
            &&& w / 0x1_0000_0000 == entry / 0x1_0000_0000
            &&& low % 0x1000 == val % 0x1000
            &&& (low / 0x2000) % 2 == (val / 0x2000) % 2
            &&& low / 0x8000 == val / 0x8000
            &&& (low / 0x1000) % 2 == (entry / 0x1000) % 2
            &&& (low / 0x4000) % 2 == (if (val / 0x8000) % 2 == 1 {
                (entry / 0x4000) % 2
            } else {
                0
            })
        }),
        ({
            let w = entry_written(entry, true, val);
            let low = w % 0x1_0000_0000;
            let before = entry % 0x1_0000_0000;
            &&& w / 0x1_0000_0000 == val
            &&& low % 0x4000 == before % 0x4000
            &&& low / 0x8000 == before / 0x8000
            &&& (low / 0x4000) % 2 == (if (before / 0x8000) % 2 == 1 {
                (before / 0x4000) % 2
            } else {
                0
            })
        }),
{
    let v = val as u64;
    let w = entry_written(entry, false, val);
    let x = entry_written(entry, true, val);
    assert({
        let low = w % 0x1_0000_0000;
        let xlow = x % 0x1_0000_0000;
        let before = entry % 0x1_0000_0000;
        &&& w / 0x1_0000_0000 == entry / 0x1_0000_0000
        &&& low % 0x1000 == v % 0x1000
        &&& (low / 0x2000) % 2 == (v / 0x2000) % 2
        &&& low / 0x8000 == v / 0x8000
        &&& (low / 0x1000) % 2 == (entry / 0x1000) % 2
        &&& (low / 0x4000) % 2 == (if (v / 0x8000) % 2 == 1 {
            (entry / 0x4000) % 2
        } else {
            0
        })
        &&& x / 0x1_0000_0000 == v
        &&& xlow % 0x4000 == before % 0x4000
        &&& xlow / 0x8000 == before / 0x8000
        &&& (xlow / 0x4000) % 2 == (if (before / 0x8000) % 2 == 1 {
            (before / 0x4000) % 2
        } else {
            0
        })
    }) by (bit_vector)
        requires
            v <= 0xffff_ffff,
            w == ({
                let m = (((entry & 0xffff_ffff_0000_0000) | v) & 0xffff_ffff_ffff_afff) | (entry & 0x5000);
                if m & 0x8000 == 0 {
                    m & !0x4000u64
                } else {
                    m
                }
            }),
            x == ({
                let m = (((entry & 0xffff_ffff) | (v << 32)) & 0xffff_ffff_ffff_afff) | (entry & 0x5000);
                if m & 0x8000 == 0 {
                    m & !0x4000u64
                } else {
                    m
                }
            }),
    ;
}

proof fn lemma_pins(irr: u32, i: u32, j: u32)
    by (bit_vector)
    requires
        i < 32,
        j < 32,
    ensures
        (irr | (1u32 << i)) & (1u32 << i) != 0,
        i != j ==> (irr | (1u32 << i)) & (1u32 << j) == irr & (1u32 << j),
        i != j ==> (irr & !(1u32 << i)) & (1u32 << j) == irr & (1u32 << j),
        (irr & !(1u32 << i)) & (1u32 << i) == 0,
        0u32 & (1u32 << j) == 0,
        (0u32 | (1u32 << i)) & !(1u32 << i) == 0,
{
}

proof fn lemma_mark_bit(entry: u64)
    by (bit_vector)
    ensures
        (entry & 0x4000 != 0) == ((entry / 0x4000) % 2 == 1),
        (entry & 0x8000 != 0) == ((entry / 0x8000) % 2 == 1),
        ((entry | 0x4000) / 0x4000) % 2 == 1,
        (entry / 0x4000) % 2 == 0 ==> entry | 0x4000 == entry + 0x4000,
        (entry / 0x4000) % 2 == 1 ==> entry | 0x4000 == entry,
        (entry / 0x4000) % 2 == 1 ==> entry & !0x4000u64 == entry - 0x4000,
{
}

proof fn lemma_unmarked(entry: u64)
    by (bit_vector)
    requires
        (entry / 0x4000) % 2 == 1,
    ensures
        ({
            let e = entry & !0x4000u64;
            &&& e | 0x4000 == entry
            &&& e & 0x4000 == 0
            &&& (e / 0x8000) % 2 == (entry / 0x8000) % 2
            &&& (e / 0x1_0000) % 2 == (entry / 0x1_0000) % 2
            &&& e / 0x1_0000_0000 == entry / 0x1_0000_0000
            &&& (e % 0x1_0000_0000) % 0x1000 == (entry % 0x1_0000_0000) % 0x1000
            &&& (e % 0x1_0000_0000) / 0x8000 == (entry % 0x1_0000_0000) / 0x8000
        }),
{
}

impl IoApicModel {
    /// Pin `pin` has an interrupt to deliver.
    spec fn due(self, pin: int) -> bool {
        let low = self.table[pin] % 0x1_0000_0000;
        &&& pending(self.irr, pin)
        &&& (low / 0x1_0000) % 2 == 0
        &&& (low / 0x8000) % 2 == 1 ==> (low / 0x4000) % 2 == 0
    }

    proof fn lemma_delivers(self, from: int, pin: int) -> (k: int)
        requires
            self.wf(),
            0 <= from <= pin < 24,
            self.due(pin),
        ensures
            0 <= k < self.service_from(from).1.len(),
            asked_for(
                self.service_from(from).1[k],
                (self.table[pin] % 0x1_0000_0000) as int,
                (self.table[pin] / 0x1_0000_0000) as int,
            ),
        decreases pin - from,
    {
        let (next, first) = self.service_pin(from);
        let (last, rest) = next.service_from(from + 1);
        lemma_fields(self.table[from]);
        lemma_mark_bit(self.table[from]);
        law_request_carries_the_entry(self.table[from]);
        if from == pin {
            assert((first + rest)[0] == first[0]);
            0
        } else {
            lemma_pins(self.irr, from as u32, pin as u32);
            let k = next.lemma_delivers(from + 1, pin);
            assert((first + rest)[first.len() + k] == rest[k]);
            first.len() + k
        }
    }

    proof fn lemma_quiet(self, from: int)
        requires
            self.wf(),
            0 <= from <= 24,
            forall|j: int| from <= j < 24 ==> !#[trigger] pending(self.irr, j),
        ensures
            self.service_from(from) == (self, Seq::<InterruptRequest>::empty()),
        decreases 24 - from,
    {
        if from < 24 {
            assert(!pending(self.irr, from));
            self.lemma_quiet(from + 1);
            assert(Seq::<InterruptRequest>::empty() + Seq::<InterruptRequest>::empty() =~= Seq::<
                InterruptRequest,
            >::empty());
        }
    }

    proof fn lemma_alone(self, from: int, pin: int)
        requires
            self.wf(),
            0 <= from <= pin < 24,
            forall|j: int| 0 <= j < 24 && j != pin ==> !#[trigger] pending(self.irr, j),
        ensures
            self.service_from(from) == self.service_pin(pin),
        decreases pin - from,
    {
        let (next, first) = self.service_pin(from);
        if from < pin {
            assert(!pending(self.irr, from));
            self.lemma_alone(from + 1, pin);
            assert(Seq::<InterruptRequest>::empty() + self.service_pin(pin).1 =~= self.service_pin(pin).1);
        } else {
            assert forall|j: int| pin + 1 <= j < 24 implies !#[trigger] pending(next.irr, j) by {
                assert(!pending(self.irr, j));
                lemma_pins(self.irr, pin as u32, j as u32);
            }
            next.lemma_quiet(pin + 1);
            assert(first + Seq::<InterruptRequest>::empty() =~= first);
        }
    }
}

#[verifier::spinoff_prover]

#[verifier::rlimit(60)]

proof fn lemma_number(data: Seq<u8>)
    requires
        data.len() == 4,
    ensures
        le_value(data) == digits(data, 0, 4),
        digits(data, 0, 4) == data[0] + 0x100 * data[1] + 0x1_0000 * data[2] + 0x100_0000 * data[3],
        0 <= digits(data, 0, 4) <= u32::MAX,
        (le_value(data) as u32) as u8 == data[0],
        (le_value(data) as u32) / 0x100_0000 == data[3],
{
    lemma_digits(data, 0, 4);
    assert(data.subrange(0, 4) =~= data);
    crate::laws::memory::law_numbers_are_little_endian(data, 0);
    let v = digits(data, 0, 4);
    let high = data[1] + 0x100 * data[2] + 0x1_0000 * data[3];
    assert(v == data[0] + 0x100 * high);
    assert(v % 0x100 == data[0]);
    assert(v / 0x100_0000 == data[3]);
    assert((v as u64) as u8 == data[0]) by {
        lemma_bits(v as u64);
    }
    assert((v as u32) as u8 == (v as u64) as u8);
}

/// Selecting and writing: the select register takes the lowest byte of what is
/// written at the first address, and nothing else happens.
pub proof fn law_select(m: IoApicModel, data: Seq<u8>)
    requires
        data.len() == 4,
    ensures
        m.written(0, data) == (
            IoApicModel { ioregsel: data[0], ..m },
            Seq::<InterruptRequest>::empty(),
        ),
{
    lemma_number(data);
}

/// A raised line requests the interrupt that the guest wrote: if the low half
/// of the pin's entry was written unmasked, and no interrupt of the pin waits
/// for its acknowledgement, then raising the line requests one with the vector,
/// delivery, destination mode and trigger mode of what was written, and with
/// the destination of the high half. If no other line is raised, it is the
/// only one.
#[verifier::spinoff_prover]
#[verifier::rlimit(60)]
pub proof fn law_written_entry_is_delivered(m: IoApicModel, pin: u32, data: Seq<u8>) -> (k: int)
    requires
        m.wf(),
        pin < 24,
        m.ioregsel == 0x10 + 2 * pin,
        data.len() == 4,
        (digits(data, 0, 4) / 0x1_0000) % 2 == 0,
        ({
            let m1 = m.written(0x10, data).0;
            (m1.table[pin as int] / 0x4000) % 2 == 0
        }),
    ensures
        ({
            let m1 = m.written(0x10, data).0;
            let (m2, out) = m1.raised(Some(pin));
            let high = m.table[pin as int] / 0x1_0000_0000;
            &&& 0 <= k < out.len()
            &&& asked_for(out[k], digits(data, 0, 4), high as int)
            &&& m1.irr == 0 ==> out.len() == 1
        }),
{
    let val = digits(data, 0, 4);
    lemma_number(data);
    let v = val as u32;
    let p = pin as int;
    assert((m.ioregsel - 16) / 2 == p);
    let entry = m.table[p];
    law_halves(entry, v);
    let w = entry_written(entry, false, v);
    let set = IoApicModel {
        table: m.table.update(p, w),
        irq_eoi: m.irq_eoi.update(p, 0),
        ..m
    };
    let (m1, s1) = m.written(0x10, data);
    assert(m.written(0x10, data) == set.serviced());
    set.lemma_entry_after_service(0, p);
    let raised = IoApicModel { irr: m1.irr | (1u32 << pin), ..m1 };
    lemma_pins(m1.irr, pin, pin);
    let x = m1.table[p];
    lemma_bits(w);
    if x != w {
        assert(x / 0x4000 == w / 0x4000 + 1);
    }
    let low = (w % 0x1_0000_0000) as u32;
    lemma_same_fields(low, v);
    assert(raised.due(p));
    let k = raised.lemma_delivers(0, p);
    if m1.irr == 0 {
        assert forall|j: int| 0 <= j < 24 && j != p implies !#[trigger] pending(raised.irr, j) by {
            lemma_pins(0, pin, j as u32);
        }
        raised.lemma_alone(0, p);
    }
    k
}

proof fn lemma_same_fields(low: u32, val: u32)
    by (bit_vector)
    requires
        low % 0x1000 == val % 0x1000,
        low / 0x8000 == val / 0x8000,
    ensures
        low % 0x100 == val % 0x100,
        (low / 0x100) % 8 == (val / 0x100) % 8,
        (low / 0x800) % 2 == (val / 0x800) % 2,
        (low / 0x8000) % 2 == (val / 0x8000) % 2,
        (low / 0x1_0000) % 2 == (val / 0x1_0000) % 2,
{
}

impl IoApicModel {
    /// Looking at the pins changes of an entry at most the bit that tells that
    /// an interrupt waits for its acknowledgement, and of a level-triggered one
    /// only.
    proof fn lemma_entry_after_service(self, from: int, pin: int)
        requires
            self.wf(),
            0 <= from <= 24,
            0 <= pin < 24,
        ensures
            self.service_from(from).0.wf(),
            ({
                let before = self.table[pin];
                let after = self.service_from(from).0.table[pin];
                after == before || (after == before + 0x4000 && (before / 0x8000) % 2 == 1 && (before / 0x4000)
                    % 2 == 0)
            }),
        decreases 24 - from,
    {
        if from < 24 {
            let next = self.service_pin(from).0;
            lemma_fields(self.table[from]);
            lemma_mark_bit(self.table[from]);
            lemma_bits(self.table[from]);
            next.lemma_entry_after_service(from + 1, pin);
            let after = next.table[pin];
            lemma_mark_bit(after);
        }
    }
}

pub(crate) proof fn lemma_window(id: u64, version: u32, entry: u64, val: u32)
    requires
        id < 0x100,
        version < 0x100,
    ensures
        (id << 24) as u32 == id * 0x100_0000,
        version | (23u32 << 16) == version + 0x17_0000,
        (entry >> 32) as u32 == entry / 0x1_0000_0000,
        (entry & 0xffff_ffff) as u32 == entry % 0x1_0000_0000,
        ((val >> 24) & 0xf) as u8 == (val / 0x100_0000) % 16,
{
    assert({
        &&& (id << 24) as u32 == id * 0x100_0000
        &&& (entry >> 32) as u32 == entry / 0x1_0000_0000
        &&& (entry & 0xffff_ffff) as u32 == entry % 0x1_0000_0000
    }) by (bit_vector)
        requires
            id < 0x100,
    ;
    assert({
        &&& version | (23u32 << 16) == version + 0x17_0000
        &&& ((val >> 24) & 0xf) as u8 == (val / 0x100_0000) % 16
    }) by (bit_vector)
        requires
            version < 0x100,
    ;
}

/// What the guest reads: at the first address the selected register, at offset
/// 0x10 the register itself, which is the identity in the highest byte, the
/// version with the number of the last pin, or half of a pin's entry; zero
/// elsewhere. The register is read as four bytes or not at all.
pub proof fn law_registers_read(m: IoApicModel, offset: u64, len: int, pin: int)
    requires
        m.wf(),
        0 <= pin < 24,
    ensures
        m.read_value(0, len) == Some(m.ioregsel as u32),
        len != 4 ==> m.read_value(0x10, len) is None,
        offset != 0 && offset != 0x10 ==> m.read_value(offset, len) == Some(0u32),
        m.ioregsel == 0 || m.ioregsel == 2 ==> (m.read_value(0x10, 4) matches Some(v) && v == m.id * 0x100_0000),
        m.ioregsel == 1 ==> (m.read_value(0x10, 4) matches Some(v) && v == m.version + 0x17_0000),
        m.ioregsel == 0x10 + 2 * pin ==> (m.read_value(0x10, 4) matches Some(v) && v == m.table[pin]
            % 0x1_0000_0000),
        m.ioregsel == 0x11 + 2 * pin ==> (m.read_value(0x10, 4) matches Some(v) && v == m.table[pin]
            / 0x1_0000_0000),
        m.ioregsel >= 0x40 ==> m.read_value(0x10, 4) == Some(0u32),
{
    lemma_window(m.id as u64, m.version as u32, m.table[pin], 0);
    if m.ioregsel == 0x10 + 2 * pin || m.ioregsel == 0x11 + 2 * pin {
        assert((m.ioregsel - 16) / 2 == pin);
    }
}

/// Writes that change no entry: the identity takes the low half of the highest
/// byte; the other registers below the entries, the registers behind them,
/// other addresses, and writes that are not four bytes change nothing.
pub proof fn law_other_writes(m: IoApicModel, offset: u64, data: Seq<u8>)
    requires
        m.wf(),
    ensures
        data.len() != 4 ==> m.written(offset, data) == (m, Seq::<InterruptRequest>::empty()),
        offset != 0 && offset != 0x10 && offset != 0x40 ==> m.written(offset, data) == (
            m,
            Seq::<InterruptRequest>::empty(),
        ),
        0 < m.ioregsel < 0x10 || m.ioregsel >= 0x40 ==> m.written(0x10, data) == (
            m,
            Seq::<InterruptRequest>::empty(),
        ),
        data.len() == 4 && m.ioregsel == 0 ==> ({
            let (after, out) = m.written(0x10, data);
            &&& after == (IoApicModel { id: after.id, ..m })
            &&& after.id == data[3] % 16
            &&& out.len() == 0
        }),
{
    if data.len() == 4 {
        lemma_number(data);
        lemma_window(0, 0, 0, le_value(data) as u32);
    }
}

/// A raised line of an unmasked pin, when no other line is raised. The
/// interrupt of an edge-triggered pin is requested and is pending no longer.
/// That of a level-triggered pin is requested once, the entry tells that it
/// waits for its acknowledgement, and it stays pending until the line is
/// lowered. A masked pin requests nothing and stays pending.
pub proof fn law_line_raised(m: IoApicModel, pin: u32)
    requires
        m.wf(),
        pin < 24,
        m.irr == 0,
    ensures
        ({
            let entry = m.table[pin as int];
            let (after, out) = m.raised(Some(pin));
            &&& after.table.len() == 24
            &&& forall|j: int| 0 <= j < 24 && j != pin ==> #[trigger] after.table[j] == m.table[j]
            &&& (entry / 0x1_0000) % 2 == 1 ==> out.len() == 0 && after.table[pin as int] == entry && pending(
                after.irr,
                pin as int,
            )
            &&& (entry / 0x1_0000) % 2 == 0 && (entry / 0x8000) % 2 == 0 ==> out.len() == 1 && after.table[pin
                as int] == entry && after.irr == 0
            &&& (entry / 0x1_0000) % 2 == 0 && (entry / 0x8000) % 2 == 1 && (entry / 0x4000) % 2 == 0
                ==> out.len() == 1 && after.table[pin as int] == entry + 0x4000 && pending(after.irr, pin as int)
            &&& (entry / 0x1_0000) % 2 == 0 && (entry / 0x8000) % 2 == 1 && (entry / 0x4000) % 2 == 1
                ==> out.len() == 0 && after.table[pin as int] == entry && pending(after.irr, pin as int)
        }),
{
    let entry = m.table[pin as int];
    let raised = IoApicModel { irr: m.irr | (1u32 << pin), ..m };
    assert forall|j: int| 0 <= j < 24 && j != pin implies !#[trigger] pending(raised.irr, j) by {
        lemma_pins(0, pin, j as u32);
    }
    raised.lemma_alone(0, pin as int);
    lemma_entry_fields(entry);
    lemma_mark_bit(entry);
    lemma_pins(0, pin, pin);
}

/// A lowered line is pending no longer, and the others are as they were.
pub proof fn law_line_lowered(m: IoApicModel, pin: u32, other: u32)
    requires
        pin < 24,
        other < 24,
        other != pin,
    ensures
        ({
            let after = m.lowered(Some(pin));
            &&& !pending(after.irr, pin as int)
            &&& pending(after.irr, other as int) == pending(m.irr, other as int)
            &&& after.table == m.table
        }),
{
    lemma_pins(m.irr, pin, pin);
    lemma_pins(m.irr, pin, other);
}

/// There is no line for a pin that the I/O APIC does not have.
pub proof fn law_no_such_line(m: IoApicModel, line: Option<u32>)
    requires
        line matches Some(n) ==> n >= 24,
    ensures
        m.raised(line) == (m, Seq::<InterruptRequest>::empty()),
        m.lowered(line) == m,
{
}

impl IoApicModel {
    proof fn lemma_again(self, entry: u64, pin: int)
        requires
            self.wf(),
            0 <= pin < 24,
            forall|j: int| 0 <= j < 24 && j != pin ==> !#[trigger] pending(self.irr, j),
            pending(self.irr, pin),
            (entry / 0x8000) % 2 == 1,
            (entry / 0x1_0000) % 2 == 0,
            (entry / 0x4000) % 2 == 1,
            self.table[pin] == entry & !0x4000u64,
        ensures
            ({
                let (next, out) = self.serviced();
                &&& next == (IoApicModel { table: self.table.update(pin, entry), ..self })
                &&& out.len() == 1
                &&& asked_for(out[0], (entry % 0x1_0000_0000) as int, (entry / 0x1_0000_0000) as int)
            }),
    {
        let e = self.table[pin];
        let low = (e % 0x1_0000_0000) as u32;
        let full = (entry % 0x1_0000_0000) as u32;
        lemma_unmarked(entry);
        lemma_entry_fields(e);
        assert(self.service_pin(pin) == (
            IoApicModel { table: self.table.update(pin, entry), ..self },
            seq![request_for(entry_info(e))],
        ));
        law_request_carries_the_entry(e);
        lemma_same_fields(low, full);
        self.lemma_alone(0, pin);
    }

    #[verifier::rlimit(40)]
    proof fn lemma_acknowledged(self, vector: u8, from: int, pin: int)
        requires
            self.wf(),
            0 <= from <= 24,
            0 <= pin < 24,
            forall|j: int| 0 <= j < 24 && j != pin ==> !#[trigger] pending(self.irr, j),
            (self.table[pin] / 0x8000) % 2 == 1,
            (self.table[pin] / 0x1_0000) % 2 == 0,
            (self.table[pin] / 0x4000) % 2 == 1,
            self.table[pin] % 0x100 == vector,
        ensures
            ({
                let entry = self.table[pin];
                let (last, out) = self.acknowledged_from(vector, from);
                &&& last.irr == self.irr
                &&& from > pin ==> out.len() == 0 && last.table[pin] == entry
                &&& from <= pin && !pending(self.irr, pin) ==> out.len() == 0 && last.table[pin] == entry
                    - 0x4000
                &&& from <= pin && pending(self.irr, pin) ==> out.len() == 1 && last.table[pin] == entry
                    && asked_for(out[0], (entry % 0x1_0000_0000) as int, (entry / 0x1_0000_0000) as int)
            }),
        decreases 24 - from,
    {
        if from < 24 {
            let entry = self.table[from];
            lemma_entry_fields(entry);
            lemma_mark_bit(entry);
            let cleared = IoApicModel { table: self.table.update(from, entry & !0x4000u64), ..self };
            if from == pin {
                let next = if pending(cleared.irr, pin) {
                    cleared.lemma_again(entry, pin);
                    cleared.serviced().0
                } else {
                    cleared
                };
                next.lemma_untouched(vector, from + 1, pin);
            } else {
                assert(!pending(cleared.irr, from));
                if (entry & 0xff) as u8 == vector && entry & 0x4000 != 0 {
                    cleared.lemma_acknowledged(vector, from + 1, pin);
                } else {
                    self.lemma_acknowledged(vector, from + 1, pin);
                }
            }
        }
    }

    proof fn lemma_untouched(self, vector: u8, from: int, pin: int)
        requires
            self.wf(),
            0 <= pin < from <= 24,
            forall|j: int| 0 <= j < 24 && j != pin ==> !#[trigger] pending(self.irr, j),
        ensures
            ({
                let (last, out) = self.acknowledged_from(vector, from);
                last.irr == self.irr && out.len() == 0 && last.table[pin] == self.table[pin]
            }),
        decreases 24 - from,
    {
        if from < 24 {
            let entry = self.table[from];
            let cleared = IoApicModel { table: self.table.update(from, entry & !0x4000u64), ..self };
            assert(!pending(cleared.irr, from));
            if (entry & 0xff) as u8 == vector && entry & 0x4000 != 0 {
                cleared.lemma_untouched(vector, from + 1, pin);
            } else {
                self.lemma_untouched(vector, from + 1, pin);
            }
        }
    }
}

/// The guest acknowledges a level-triggered interrupt by writing its vector at
/// offset 0x40. If the line is still raised, the interrupt is requested again;
/// if it was lowered, nothing is requested and the entry waits no longer.
pub proof fn law_acknowledged(m: IoApicModel, pin: int, data: Seq<u8>)
    requires
        m.wf(),
        0 <= pin < 24,
        forall|j: int| 0 <= j < 24 && j != pin ==> !#[trigger] pending(m.irr, j),
        (m.table[pin] / 0x8000) % 2 == 1,
        (m.table[pin] / 0x1_0000) % 2 == 0,
        (m.table[pin] / 0x4000) % 2 == 1,
        data.len() == 4,
        data[0] == m.table[pin] % 0x100,
    ensures
        ({
            let entry = m.table[pin];
            let (after, out) = m.written(0x40, data);
            &&& after.irr == m.irr
            &&& pending(m.irr, pin) ==> out.len() == 1 && after.table[pin] == entry && asked_for(
                out[0],
                (entry % 0x1_0000_0000) as int,
                (entry / 0x1_0000_0000) as int,
            )
            &&& !pending(m.irr, pin) ==> out.len() == 0 && after.table[pin] == entry - 0x4000
        }),
{
    lemma_number(data);
    m.lemma_acknowledged(data[0], 0, pin);
}

} // verus!

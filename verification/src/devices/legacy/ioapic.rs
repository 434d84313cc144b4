//! A software I/O APIC. It serves the guest's accesses to its registers and
//! says which interrupts the hypervisor must deliver.

use vstd::prelude::*;

use crate::byte_order::{le_bytes, le_value, overwritten, read_le_u32, resized, write_le_u32};
use crate::laws::ioapic::lemma_entry_fields;

verus! {

pub const IOAPIC_NUM_PINS: usize = 24;

/// Register offsets.
pub const IO_REG_SEL: u64 = 0x00;

pub const IO_WIN: u64 = 0x10;

pub const IO_EOI: u64 = 0x40;

/// Indirect register indices.
pub const IO_APIC_ID: u8 = 0x00;

pub const IO_APIC_VER: u8 = 0x01;

pub const IO_APIC_ARB: u8 = 0x02;

/// The first indirect register of the redirection table.
pub const IOAPIC_REG_REDTBL_BASE: u64 = 0x10;

/// The remote IRR bit of a redirection table entry: a level-triggered
/// interrupt was delivered and not acknowledged yet.
pub const IOAPIC_LVT_REMOTE_IRR: u64 = 0x4000;

/// The trigger mode bit of a redirection table entry: set for level, clear
/// for edge.
pub const IOAPIC_LVT_TRIGGER_MODE: u64 = 0x8000;

/// The bits of an entry that the guest cannot write: remote IRR and delivery
/// status.
pub const IOAPIC_RO_BITS: u64 = 0x5000;

/// The bits of an entry that the guest can write.
pub const IOAPIC_RW_BITS: u64 = 0xffff_ffff_ffff_afff;

/// An entry that is masked and otherwise zero.
pub const IOAPIC_MASKED: u64 = 0x1_0000;

/// Parsed redirection table entry.
#[derive(Clone, Copy, Debug, PartialEq, Eq, Structural)]
pub struct IoApicEntryInfo {
    pub masked: bool,
    /// 0 for edge, 1 for level.
    pub trig_mode: u8,
    /// Destination APIC ID.
    pub dest_idx: u8,
    /// 0 for physical, 1 for logical.
    pub dest_mode: u8,
    pub delivery_mode: u8,
    pub vector: u8,
}

/// An interrupt for the hypervisor to deliver. `bitfield` holds the type in
/// bits 0 to 7, the destination mode in bits 8 to 11 and the trigger mode in
/// bits 12 to 15.
#[derive(Clone, Copy, Debug, PartialEq, Eq, Structural)]
pub struct InterruptRequest {
    pub bitfield: u64,
    pub destination: u32,
    pub vector: u32,
}

/// The fields of a redirection table entry: the vector in bits 0 to 7, the
/// delivery mode in bits 8 to 10, the destination mode in bit 11, the trigger
/// mode in bit 15, the mask in bit 16 and the destination in bits 56 to 63.
pub open spec fn entry_info(entry: u64) -> IoApicEntryInfo {
    IoApicEntryInfo {
        vector: (entry & 0xff) as u8,
        delivery_mode: ((entry >> 8) & 0x7) as u8,
        dest_mode: ((entry >> 11) & 1) as u8,
        trig_mode: ((entry >> 15) & 1) as u8,
        masked: ((entry >> 16) & 1) != 0,
        dest_idx: ((entry >> 56) & 0xff) as u8,
    }
}

/// The hypervisor's interrupt type for a delivery mode: external interrupts
/// and modes that have no type of their own are delivered as fixed.
pub open spec fn interrupt_type(delivery_mode: u8) -> u8 {
    if delivery_mode == 1 || delivery_mode == 4 || delivery_mode == 5 {
        delivery_mode
    } else {
        0
    }
}

/// The interrupt to deliver for an entry.
pub open spec fn request_for(info: IoApicEntryInfo) -> InterruptRequest {
    InterruptRequest {
        bitfield: interrupt_type(info.delivery_mode) as u64 | ((info.dest_mode as u64) << 8) | ((
        info.trig_mode as u64) << 12),
        destination: info.dest_idx as u32,
        vector: info.vector as u32,
    }
}

/// Whether the interrupt request register has a pin pending.
pub open spec fn pending(irr: u32, pin: int) -> bool {
    irr & (1u32 << (pin as u32)) != 0
}

/// The state of the I/O APIC.
#[verifier::ext_equal]
pub struct IoApicModel {
    pub id: u8,
    /// The indirect register that the window shows.
    pub ioregsel: u8,
    /// Which pins have an interrupt waiting.
    pub irr: u32,
    /// The redirection table.
    pub table: Seq<u64>,
    pub version: u8,
    pub irq_eoi: Seq<i32>,
    pub mmio_addr: u64,
    pub mmio_size: u64,
}

impl IoApicModel {
    /// Looks at one pin: an unmasked pending interrupt is delivered. An edge
    /// interrupt is no longer pending then; a level interrupt is marked in
    /// the entry, and not delivered again while it is marked.
    pub open spec fn service_pin(self, pin: int) -> (IoApicModel, Seq<InterruptRequest>) {
        let entry = self.table[pin];
        let info = entry_info(entry);
        if !pending(self.irr, pin) || info.masked {
            (self, Seq::empty())
        } else if info.trig_mode == 0 {
            (
                IoApicModel { irr: self.irr & !(1u32 << (pin as u32)), ..self },
                seq![request_for(info)],
            )
        } else {
            (
                IoApicModel { table: self.table.update(pin, entry | IOAPIC_LVT_REMOTE_IRR), ..self },
                if entry & IOAPIC_LVT_REMOTE_IRR != 0 {
                    Seq::empty()
                } else {
                    seq![request_for(info)]
                },
            )
        }
    }

    /// Looks at the pins from `pin` on, in order.
    pub open spec fn service_from(self, pin: int) -> (IoApicModel, Seq<InterruptRequest>)
        decreases IOAPIC_NUM_PINS - pin,
    {
        if pin < 0 || pin >= IOAPIC_NUM_PINS {
            (self, Seq::empty())
        } else {
            let (next, first) = self.service_pin(pin);
            let (last, rest) = next.service_from(pin + 1);
            (last, first + rest)
        }
    }

    /// Looks at all the pins.
    pub open spec fn serviced(self) -> (IoApicModel, Seq<InterruptRequest>) {
        self.service_from(0)
    }

    /// Raising a line: pins out of range are ignored.
    pub open spec fn raised(self, irq_line: Option<u32>) -> (IoApicModel, Seq<InterruptRequest>) {
        match irq_line {
            Some(irq) if irq < IOAPIC_NUM_PINS => IoApicModel {
                irr: self.irr | (1u32 << irq),
                ..self
            }.serviced(),
            _ => (self, Seq::empty()),
        }
    }

    /// Lowering a line: pins out of range are ignored.
    pub open spec fn lowered(self, irq_line: Option<u32>) -> IoApicModel {
        match irq_line {
            Some(irq) if irq < IOAPIC_NUM_PINS => IoApicModel {
                irr: self.irr & !(1u32 << irq),
                ..self
            },
            _ => self,
        }
    }

    /// What the window shows.
    pub open spec fn window(self) -> u32 {
        if self.ioregsel == IO_APIC_ID || self.ioregsel == IO_APIC_ARB {
            ((self.id as u64) << 24) as u32
        } else if self.ioregsel == IO_APIC_VER {
            self.version as u32 | (23u32 << 16)
        } else {
            let index = (self.ioregsel - 16) / 2;
            if index < IOAPIC_NUM_PINS {
                if self.ioregsel % 2 == 1 {
                    (self.table[index] >> 32) as u32
                } else {
                    (self.table[index] & 0xffff_ffff) as u32
                }
            } else {
                0
            }
        }
    }

    /// What a read of `len` bytes at `offset` gives; nothing where the window
    /// is not read as four bytes.
    pub open spec fn read_value(self, offset: u64, len: int) -> Option<u32> {
        if offset == IO_REG_SEL {
            Some(self.ioregsel as u32)
        } else if offset == IO_WIN {
            if len != 4 {
                None
            } else {
                Some(self.window())
            }
        } else {
            Some(0)
        }
    }

    /// Writing the window.
    pub open spec fn window_written(self, val: u32) -> (IoApicModel, Seq<InterruptRequest>) {
        if self.ioregsel == IO_APIC_ID {
            (IoApicModel { id: ((val >> 24) & 0xf) as u8, ..self }, Seq::empty())
        } else if self.ioregsel < 16 {
            (self, Seq::empty())
        } else {
            let index = (self.ioregsel - 16) / 2;
            if index >= IOAPIC_NUM_PINS {
                (self, Seq::empty())
            } else {
                IoApicModel {
                    table: self.table.update(
                        index,
                        entry_written(self.table[index], self.ioregsel % 2 == 1, val),
                    ),
                    irq_eoi: self.irq_eoi.update(index, 0),
                    ..self
                }.serviced()
            }
        }
    }

    /// Acknowledging `vector`, for the pins from `pin` on: entries with that
    /// vector are no longer marked as delivered. Where the pin is pending
    /// still, all the pins are looked at again.
    pub open spec fn acknowledged_from(self, vector: u8, pin: int) -> (
        IoApicModel,
        Seq<InterruptRequest>,
    )
        decreases IOAPIC_NUM_PINS - pin,
    {
        if pin < 0 || pin >= IOAPIC_NUM_PINS {
            (self, Seq::empty())
        } else {
            let entry = self.table[pin];
            if (entry & 0xff) as u8 == vector && entry & IOAPIC_LVT_REMOTE_IRR != 0 {
                let cleared = IoApicModel {
                    table: self.table.update(pin, entry & !IOAPIC_LVT_REMOTE_IRR),
                    ..self
                };
                let (next, first) = if pending(cleared.irr, pin) {
                    cleared.serviced()
                } else {
                    (cleared, Seq::empty())
                };
                let (last, rest) = next.acknowledged_from(vector, pin + 1);
                (last, first + rest)
            } else {
                self.acknowledged_from(vector, pin + 1)
            }
        }
    }

    /// What a write of `data` at `offset` does.
    pub open spec fn written(self, offset: u64, data: Seq<u8>) -> (IoApicModel, Seq<InterruptRequest>) {
        let val = le_value(data) as u32;
        if data.len() != 4 {
            (self, Seq::empty())
        } else if offset == IO_REG_SEL {
            (IoApicModel { ioregsel: val as u8, ..self }, Seq::empty())
        } else if offset == IO_WIN {
            self.window_written(val)
        } else if offset == IO_EOI {
            self.acknowledged_from(val as u8, 0)
        } else {
            (self, Seq::empty())
        }
    }

    pub open spec fn wf(self) -> bool {
        self.table.len() == IOAPIC_NUM_PINS && self.irq_eoi.len() == IOAPIC_NUM_PINS
    }
}

/// An entry after one of its halves was written: the read-only bits stay, but
/// an edge-triggered entry never keeps its remote IRR bit.
pub open spec fn entry_written(entry: u64, high: bool, val: u32) -> u64 {
    let half = if high {
        (entry & 0xffff_ffff) | ((val as u64) << 32)
    } else {
        (entry & 0xffff_ffff_0000_0000) | (val as u64)
    };
    let merged = (half & IOAPIC_RW_BITS) | (entry & IOAPIC_RO_BITS);
    if merged & IOAPIC_LVT_TRIGGER_MODE == 0 {
        merged & !IOAPIC_LVT_REMOTE_IRR
    } else {
        merged
    }
}

/// Software I/O APIC.
#[derive(Debug)]
pub struct IoApic {
    pub id: u8,
    pub ioregsel: u8,
    pub irr: u32,
    pub ioredtbl: Vec<u64>,
    pub version: u8,
    pub irq_eoi: Vec<i32>,
    pub mmio_addr: u64,
    pub mmio_size: u64,
}

impl View for IoApic {
    type V = IoApicModel;

    open spec fn view(&self) -> IoApicModel {
        IoApicModel {
            id: self.id,
            ioregsel: self.ioregsel,
            irr: self.irr,
            table: self.ioredtbl@,
            version: self.version,
            irq_eoi: self.irq_eoi@,
            mmio_addr: self.mmio_addr,
            mmio_size: self.mmio_size,
        }
    }
}

impl IoApic {
    /// An I/O APIC whose registers lie at `mmio_addr`, with every pin masked.
    pub fn new(mmio_addr: u64, mmio_size: u64) -> (r: Self)
        ensures
            r@.wf(),
            r@ == (IoApicModel {
                id: 0,
                ioregsel: 0,
                irr: 0,
                table: Seq::new(24, |i: int| IOAPIC_MASKED),
                version: 0x20,
                irq_eoi: Seq::new(24, |i: int| 0i32),
                mmio_addr,
                mmio_size,
            }),
    {
        let mut ioredtbl: Vec<u64> = Vec::new();
        let mut irq_eoi: Vec<i32> = Vec::new();
        let mut i: usize = 0;
        while i < IOAPIC_NUM_PINS
            invariant
                i <= IOAPIC_NUM_PINS,
                ioredtbl@ == Seq::new(i as nat, |i: int| IOAPIC_MASKED),
                irq_eoi@ == Seq::new(i as nat, |i: int| 0i32),
            decreases IOAPIC_NUM_PINS - i,
        {
            ioredtbl.push(IOAPIC_MASKED);
            irq_eoi.push(0);
            i += 1;
            assert(ioredtbl@ =~= Seq::new(i as nat, |i: int| IOAPIC_MASKED));
            assert(irq_eoi@ =~= Seq::new(i as nat, |i: int| 0i32));
        }
        IoApic {
            id: 0,
            ioregsel: 0,
            irr: 0,
            ioredtbl,
            version: 0x20,
            irq_eoi,
            mmio_addr,
            mmio_size,
        }
    }

    pub fn get_mmio_addr(&self) -> (r: u64)
        ensures
            r == self.mmio_addr,
    {
        self.mmio_addr
    }

    pub fn get_mmio_size(&self) -> (r: u64)
        ensures
            r == self.mmio_size,
    {
        self.mmio_size
    }

    /// Parses a redirection table entry into its fields.
    pub fn parse_entry(entry: u64) -> (r: IoApicEntryInfo)
        ensures
            r == entry_info(entry),
            r.vector == entry % 0x100,
            r.delivery_mode == (entry / 0x100) % 8,
            r.dest_mode == (entry / 0x800) % 2,
            r.trig_mode == (entry / 0x8000) % 2,
            r.masked == ((entry / 0x1_0000) % 2 == 1),
            r.dest_idx == entry / 0x100_0000_0000_0000,
    {
        proof {
            lemma_entry_fields(entry);
        }
        IoApicEntryInfo {
            vector: (entry & 0xff) as u8,
            delivery_mode: ((entry >> 8) & 0x7) as u8,
            dest_mode: ((entry >> 11) & 1) as u8,
            trig_mode: ((entry >> 15) & 1) as u8,
            masked: ((entry >> 16) & 1) != 0,
            dest_idx: ((entry >> 56) & 0xff) as u8,
        }
    }

    /// The interrupt for the hypervisor to deliver for a parsed entry.
    pub fn inject_interrupt(info: &IoApicEntryInfo) -> (r: InterruptRequest)
        ensures
            r == request_for(*info),
    {
        let kind: u8 = match info.delivery_mode {
            0 => 0,
            1 => 1,
            4 => 4,
            5 => 5,
            _ => 0,
        };
        InterruptRequest {
            bitfield: kind as u64 | ((info.dest_mode as u64) << 8) | ((info.trig_mode as u64) << 12),
            destination: info.dest_idx as u32,
            vector: info.vector as u32,
        }
    }

    /// If the trigger mode is edge, clears the remote IRR bit.
    fn fix_edge_remote_irr(&mut self, index: usize)
        requires
            old(self)@.wf(),
            index < IOAPIC_NUM_PINS,
        ensures
            final(self)@ == (IoApicModel {
                table: old(self)@.table.update(
                    index as int,
                    if old(self)@.table[index as int] & IOAPIC_LVT_TRIGGER_MODE == 0 {
                        old(self)@.table[index as int] & !IOAPIC_LVT_REMOTE_IRR
                    } else {
                        old(self)@.table[index as int]
                    },
                ),
                ..old(self)@
            }),
    {
        let entry: u64 = self.ioredtbl[index];
        if entry & IOAPIC_LVT_TRIGGER_MODE == 0 {
            self.ioredtbl[index] = entry & !IOAPIC_LVT_REMOTE_IRR;
        }
        assert(self@.table =~= old(self)@.table.update(index as int, self@.table[index as int]));
    }

    /// Delivers the unmasked pending interrupts: the result lists them in the
    /// order of their pins.
    pub fn service(&mut self) -> (r: Vec<InterruptRequest>)
        requires
            old(self)@.wf(),
        ensures
            final(self)@.wf(),
            (final(self)@, r@) == old(self)@.serviced(),
    {
        let mut out: Vec<InterruptRequest> = Vec::new();
        let mut i: usize = 0;
        let ghost goal = self@.serviced();
        assert(out@ + goal.1 =~= goal.1);
        while i < IOAPIC_NUM_PINS
            invariant
                i <= IOAPIC_NUM_PINS,
                self@.wf(),
                goal == old(self)@.serviced(),
                self@.service_from(i as int).0 == goal.0,
                out@ + self@.service_from(i as int).1 == goal.1,
            decreases IOAPIC_NUM_PINS - i,
        {
            let ghost before = self@;
            let ghost sent = out@;
            let mask: u32 = 1u32 << (i as u32);
            if self.irr & mask != 0 {
                let entry: u64 = self.ioredtbl[i];
                let info = IoApic::parse_entry(entry);
                if !info.masked {
                    let mut coalesce = false;
                    if info.trig_mode == 0 {
                        self.irr = self.irr & !mask;
                    } else {
                        coalesce = (entry & IOAPIC_LVT_REMOTE_IRR) != 0;
                        self.ioredtbl[i] = entry | IOAPIC_LVT_REMOTE_IRR;
                    }
                    if !coalesce {
                        out.push(IoApic::inject_interrupt(&info));
                    }
                }
            }
            proof {
                let (next, first) = before.service_pin(i as int);
                assert(self@ =~= next);
                assert(out@ =~= sent + first);
                let rest = next.service_from(i + 1).1;
                assert(sent + (first + rest) =~= (sent + first) + rest);
            }
            i += 1;
        }
        assert(out@ + Seq::<InterruptRequest>::empty() =~= out@);
        out
    }

    /// Raises a line. The result lists the interrupts to deliver.
    pub fn set_irq(&mut self, irq_line: Option<u32>) -> (r: Vec<InterruptRequest>)
        requires
            old(self)@.wf(),
        ensures
            final(self)@.wf(),
            (final(self)@, r@) == old(self)@.raised(irq_line),
    {
        match irq_line {
            Some(irq) => {
                if irq < 24 {
                    self.irr = self.irr | (1u32 << irq);
                    self.service()
                } else {
                    Vec::new()
                }
            },
            None => Vec::new(),
        }
    }

    /// Lowers a line.
    pub fn clear_irq(&mut self, irq_line: Option<u32>)
        requires
            old(self)@.wf(),
        ensures
            final(self)@.wf(),
            final(self)@ == old(self)@.lowered(irq_line),
    {
        if let Some(irq) = irq_line {
            if irq < 24 {
                self.irr = self.irr & !(1u32 << irq);
            }
        }
    }

    /// Reads a register. The window must be read while a register of the
    /// device is selected.
    pub fn read(&self, offset: u64, data: &mut [u8])
        requires
            self@.wf(),
            offset == IO_WIN && old(data)@.len() == 4 ==> self.ioregsel <= IO_APIC_ARB
                || self.ioregsel >= IOAPIC_REG_REDTBL_BASE,
        ensures
            final(data)@ == (match self@.read_value(offset, old(data)@.len() as int) {
                Some(v) => overwritten(old(data)@, le_bytes(v as nat, 4)),
                None => old(data)@,
            }),
    {
        let val: u32 = if offset == IO_REG_SEL {
            self.ioregsel as u32
        } else if offset == IO_WIN {
            if data.len() != 4 {
                return;
            }
            if self.ioregsel == IO_APIC_ID || self.ioregsel == IO_APIC_ARB {
                ((self.id as u64) << 24) as u32
            } else if self.ioregsel == IO_APIC_VER {
                self.version as u32 | (23u32 << 16)
            } else {
                let index: u64 = (self.ioregsel as u64 - IOAPIC_REG_REDTBL_BASE) / 2;
                if index < IOAPIC_NUM_PINS as u64 {
                    if self.ioregsel % 2 == 1 {
                        (self.ioredtbl[index as usize] >> 32) as u32
                    } else {
                        (self.ioredtbl[index as usize] & 0xffff_ffff) as u32
                    }
                } else {
                    0
                }
            }
        } else {
            0
        };
        write_le_u32(data, val);
    }

    /// Writes one half of a redirection table entry.
    fn write_entry(&mut self, index: usize, val: u32)
        requires
            old(self)@.wf(),
            index < IOAPIC_NUM_PINS,
        ensures
            final(self)@ == (IoApicModel {
                table: old(self)@.table.update(
                    index as int,
                    entry_written(old(self)@.table[index as int], old(self).ioregsel % 2 == 1, val),
                ),
                irq_eoi: old(self)@.irq_eoi.update(index as int, 0),
                ..old(self)@
            }),
    {
        let entry: u64 = self.ioredtbl[index];
        let ro_bits: u64 = entry & IOAPIC_RO_BITS;
        let half: u64 = if self.ioregsel % 2 == 1 {
            (entry & 0xffff_ffff) | ((val as u64) << 32)
        } else {
            (entry & 0xffff_ffff_0000_0000) | (val as u64)
        };
        self.ioredtbl[index] = (half & IOAPIC_RW_BITS) | ro_bits;
        self.irq_eoi[index] = 0;
        self.fix_edge_remote_irr(index);
        assert(self@.table =~= old(self)@.table.update(index as int, self@.table[index as int]));
    }

    /// Acknowledges `vector`. The result lists the interrupts to deliver.
    fn acknowledge(&mut self, vector: u8) -> (r: Vec<InterruptRequest>)
        requires
            old(self)@.wf(),
        ensures
            final(self)@.wf(),
            (final(self)@, r@) == old(self)@.acknowledged_from(vector, 0),
    {
        let mut out: Vec<InterruptRequest> = Vec::new();
        let mut i: usize = 0;
        let ghost goal = self@.acknowledged_from(vector, 0);
        assert(out@ + goal.1 =~= goal.1);
        while i < IOAPIC_NUM_PINS
            invariant
                i <= IOAPIC_NUM_PINS,
                self@.wf(),
                goal == old(self)@.acknowledged_from(vector, 0),
                self@.acknowledged_from(vector, i as int).0 == goal.0,
                out@ + self@.acknowledged_from(vector, i as int).1 == goal.1,
            decreases IOAPIC_NUM_PINS - i,
        {
            let ghost before = self@;
            let ghost sent = out@;
            let entry: u64 = self.ioredtbl[i];
            let entry_vector: u8 = (entry & 0xff) as u8;
            if entry_vector == vector && (entry & IOAPIC_LVT_REMOTE_IRR) != 0 {
                self.ioredtbl[i] = entry & !IOAPIC_LVT_REMOTE_IRR;
                let ghost cleared = IoApicModel {
                    table: before.table.update(i as int, entry & !IOAPIC_LVT_REMOTE_IRR),
                    ..before
                };
                assert(self@ =~= cleared);
                let ghost first = if pending(cleared.irr, i as int) {
                    cleared.serviced().1
                } else {
                    Seq::empty()
                };
                if self.irr & (1u32 << (i as u32)) != 0 {
                    let mut more = self.service();
                    out.append(&mut more);
                }
                assert(out@ =~= sent + first);
                proof {
                    let rest = self@.acknowledged_from(vector, i + 1).1;
                    assert(sent + (first + rest) =~= (sent + first) + rest);
                }
            }
            i += 1;
        }
        assert(out@ + Seq::<InterruptRequest>::empty() =~= out@);
        out
    }

    /// Writes a register. The result lists the interrupts to deliver.
    pub fn write(&mut self, offset: u64, data: &[u8]) -> (r: Vec<InterruptRequest>)
        requires
            old(self)@.wf(),
        ensures
            final(self)@.wf(),
            (final(self)@, r@) == old(self)@.written(offset, data@),
    {
        if data.len() != 4 {
            return Vec::new();
        }
        assert(resized(data@, 4) =~= data@);
        let val: u32 = read_le_u32(data);
        if offset == IO_REG_SEL {
            self.ioregsel = val as u8;
            Vec::new()
        } else if offset == IO_WIN {
            if self.ioregsel == IO_APIC_ID {
                self.id = ((val >> 24) & 0xf) as u8;
                Vec::new()
            } else if self.ioregsel < 16 {
                Vec::new()
            } else {
                let index: u64 = (self.ioregsel as u64 - IOAPIC_REG_REDTBL_BASE) / 2;
                if index >= IOAPIC_NUM_PINS as u64 {
                    return Vec::new();
                }
                self.write_entry(index as usize, val);
                self.service()
            }
        } else if offset == IO_EOI {
            self.acknowledge(val as u8)
        } else {
            Vec::new()
        }
    }
}

/// Clearing one pin's bit leaves the others.
proof fn lemma_clear_bit(irr: u32, i: u32, j: u32)
    by (bit_vector)
    requires
        i < 32,
        j < 32,
    ensures
        i != j ==> (irr & !(1u32 << i)) & (1u32 << j) == irr & (1u32 << j),
        (irr & !(1u32 << i)) & (1u32 << i) == 0,
{
}

/// Marking an entry as delivered changes none of its fields.
proof fn lemma_mark(entry: u64)
    by (bit_vector)
    ensures
        (entry | 0x4000) & 0x4000 != 0,
        entry & 0x4000 != 0 ==> entry | 0x4000 == entry,
        ((entry | 0x4000) >> 16) & 1 == (entry >> 16) & 1,
        ((entry | 0x4000) >> 15) & 1 == (entry >> 15) & 1,
        (entry | 0x4000) & 0xff == entry & 0xff,
        (entry & !0x4000u64) & 0xff == entry & 0xff,
        (entry & !0x4000u64) & 0x4000 == 0,
{
}

/// A guest write to an entry keeps its delivery status; a level-triggered
/// entry keeps its remote IRR bit, an edge-triggered one has none. Every
/// other bit of the written half is as the guest wrote it, and the other half
/// is unchanged.
pub proof fn law_entry_write(entry: u64, high: bool, val: u32)
    ensures
        entry_written(entry, high, val) & 0x1000 == entry & 0x1000,
        entry_written(entry, high, val) & IOAPIC_LVT_TRIGGER_MODE == 0 ==> entry_written(
            entry,
            high,
            val,
        ) & IOAPIC_LVT_REMOTE_IRR == 0,
        entry_written(entry, high, val) & IOAPIC_LVT_TRIGGER_MODE != 0 ==> entry_written(
            entry,
            high,
            val,
        ) & IOAPIC_LVT_REMOTE_IRR == entry & IOAPIC_LVT_REMOTE_IRR,
        high ==> entry_written(entry, high, val) >> 32 == val as u64,
        !high ==> entry_written(entry, high, val) >> 32 == entry >> 32,
        !high ==> entry_written(entry, high, val) & 0xffff_afff == val as u64 & 0xffff_afff,
{
    let w = entry_written(entry, high, val);
    let v = val as u64;
    let half = if high {
        (entry & 0xffff_ffff) | (v << 32)
    } else {
        (entry & 0xffff_ffff_0000_0000) | v
    };
    assert({
        &&& w & 0x1000 == entry & 0x1000
        &&& w & 0x8000 == 0 ==> w & 0x4000 == 0
        &&& w & 0x8000 != 0 ==> w & 0x4000 == entry & 0x4000
        &&& high ==> w >> 32 == v
        &&& !high ==> w >> 32 == entry >> 32
        &&& !high ==> w & 0xffff_afff == v & 0xffff_afff
    }) by (bit_vector)
        requires
            v <= 0xffff_ffff,
            high ==> half == (entry & 0xffff_ffff) | (v << 32),
            !high ==> half == (entry & 0xffff_ffff_0000_0000) | v,
            w == (if ((half & 0xffff_ffff_ffff_afff) | (entry & 0x5000)) & 0x8000 == 0 {
                ((half & 0xffff_ffff_ffff_afff) | (entry & 0x5000)) & !0x4000u64
            } else {
                (half & 0xffff_ffff_ffff_afff) | (entry & 0x5000)
            }),
    ;
}

impl IoApicModel {
    /// The pin has nothing to deliver: it is not pending, it is masked, or its
    /// level interrupt was delivered and not acknowledged yet.
    pub open spec fn settled(self, pin: int) -> bool {
        let info = entry_info(self.table[pin]);
        !pending(self.irr, pin) || info.masked || (info.trig_mode != 0 && self.table[pin]
            & IOAPIC_LVT_REMOTE_IRR != 0)
    }

    /// What looking at the pins from `pin` on leaves alone and what it
    /// achieves.
    proof fn lemma_service(self, pin: int)
        requires
            self.wf(),
            0 <= pin <= IOAPIC_NUM_PINS,
        ensures
            self.service_from(pin).0.wf(),
            forall|j: int|
                0 <= j < pin ==> self.service_from(pin).0.table[j] == #[trigger] self.table[j],
            forall|j: int|
                0 <= j < pin ==> pending(self.service_from(pin).0.irr, j) == #[trigger] pending(
                    self.irr,
                    j,
                ),
            forall|j: int|
                pin <= j < IOAPIC_NUM_PINS ==> #[trigger] self.service_from(pin).0.settled(j),
            forall|j: int|
                0 <= j < IOAPIC_NUM_PINS && !pending(self.irr, j) ==> {
                    &&& #[trigger] self.service_from(pin).0.table[j] == self.table[j]
                    &&& !pending(self.service_from(pin).0.irr, j)
                },
        decreases IOAPIC_NUM_PINS - pin,
    {
        if pin < IOAPIC_NUM_PINS {
            let next = self.service_pin(pin).0;
            lemma_mark(self.table[pin]);
            assert forall|j: int| 0 <= j < IOAPIC_NUM_PINS && j != pin implies pending(next.irr, j)
                == #[trigger] pending(self.irr, j) by {
                lemma_clear_bit(self.irr, pin as u32, j as u32);
            }
            lemma_clear_bit(self.irr, pin as u32, pin as u32);
            assert(next.settled(pin));
            next.lemma_service(pin + 1);
            let last = self.service_from(pin).0;
            assert(last == next.service_from(pin + 1).0);
            assert(last.table[pin] == next.table[pin]);
            assert(pending(last.irr, pin) == pending(next.irr, pin));
            assert(last.settled(pin));
            assert forall|j: int| 0 <= j < pin implies last.table[j] == #[trigger] self.table[j] by {
                assert(next.table[j] == self.table[j]);
            }
        }
    }

    proof fn lemma_service_settled(self, pin: int)
        requires
            self.wf(),
            0 <= pin <= IOAPIC_NUM_PINS,
            forall|j: int| pin <= j < IOAPIC_NUM_PINS ==> #[trigger] self.settled(j),
        ensures
            self.service_from(pin).0 == self,
            self.service_from(pin).1.len() == 0,
        decreases IOAPIC_NUM_PINS - pin,
    {
        if pin < IOAPIC_NUM_PINS {
            assert(self.settled(pin));
            lemma_mark(self.table[pin]);
            assert(self.service_pin(pin).0.table =~= self.table);
            assert(self.service_pin(pin).0 == self);
            self.lemma_service_settled(pin + 1);
        }
    }

    /// No interrupt is delivered twice: looking at the pins again right away
    /// delivers nothing and changes nothing.
    pub proof fn law_service_once(self)
        requires
            self.wf(),
        ensures
            self.serviced().0.serviced().0 == self.serviced().0,
            self.serviced().0.serviced().1.len() == 0,
    {
        self.lemma_service(0);
        self.serviced().0.lemma_service_settled(0);
    }

    proof fn lemma_sources(self, pin: int, k: int)
        requires
            self.wf(),
            0 <= pin <= IOAPIC_NUM_PINS,
            0 <= k < self.service_from(pin).1.len(),
        ensures
            exists|j: int|
                pin <= j < IOAPIC_NUM_PINS && #[trigger] pending(self.irr, j) && !self.settled(j)
                    && self.service_from(pin).1[k] == request_for(entry_info(self.table[j])),
        decreases IOAPIC_NUM_PINS - pin,
    {
        if pin < IOAPIC_NUM_PINS {
            let (next, first) = self.service_pin(pin);
            if k < first.len() {
                assert(pending(self.irr, pin));
            } else {
                next.lemma_sources(pin + 1, k - first.len());
                let j = choose|j: int|
                    pin + 1 <= j < IOAPIC_NUM_PINS && #[trigger] pending(next.irr, j) && !next.settled(
                        j,
                    ) && next.service_from(pin + 1).1[k - first.len()] == request_for(
                        entry_info(next.table[j]),
                    );
                lemma_clear_bit(self.irr, pin as u32, j as u32);
                assert(pending(self.irr, j));
            }
        }
    }

    /// Every interrupt that is delivered belongs to a pin that was pending and
    /// not masked, and, if level-triggered, not waiting for acknowledgement.
    pub proof fn law_delivered_pins(self, k: int)
        requires
            self.wf(),
            0 <= k < self.serviced().1.len(),
        ensures
            exists|j: int|
                0 <= j < IOAPIC_NUM_PINS && #[trigger] pending(self.irr, j) && !self.settled(j)
                    && self.serviced().1[k] == request_for(entry_info(self.table[j])),
    {
        self.lemma_sources(0, k);
    }

    proof fn lemma_acknowledge(self, vector: u8, pin: int)
        requires
            self.wf(),
            0 <= pin <= IOAPIC_NUM_PINS,
        ensures
            self.acknowledged_from(vector, pin).0.wf(),
            forall|j: int|
                0 <= j < IOAPIC_NUM_PINS && !pending(self.irr, j) ==> {
                    let after = #[trigger] self.acknowledged_from(vector, pin).0.table[j];
                    &&& after & 0xff == self.table[j] & 0xff
                    &&& j >= pin && (self.table[j] & 0xff) as u8 == vector ==> after
                        & IOAPIC_LVT_REMOTE_IRR == 0
                    &&& j < pin || (self.table[j] & 0xff) as u8 != vector ==> after == self.table[j]
                },
        decreases IOAPIC_NUM_PINS - pin,
    {
        if pin < IOAPIC_NUM_PINS {
            let entry = self.table[pin];
            lemma_mark(entry);
            if (entry & 0xff) as u8 == vector && entry & IOAPIC_LVT_REMOTE_IRR != 0 {
                let cleared = IoApicModel {
                    table: self.table.update(pin, entry & !IOAPIC_LVT_REMOTE_IRR),
                    ..self
                };
                cleared.lemma_service(0);
                let next = if pending(cleared.irr, pin) {
                    cleared.serviced().0
                } else {
                    cleared
                };
                assert forall|j: int| 0 <= j < IOAPIC_NUM_PINS && !pending(self.irr, j) implies {
                    &&& !pending(next.irr, j)
                    &&& #[trigger] next.table[j] == cleared.table[j]
                } by {
                    assert(cleared.serviced().0.table[j] == cleared.table[j]);
                }
                next.lemma_acknowledge(vector, pin + 1);
                assert forall|j: int| 0 <= j < IOAPIC_NUM_PINS && !pending(self.irr, j) implies {
                    let after = #[trigger] self.acknowledged_from(vector, pin).0.table[j];
                    &&& after & 0xff == self.table[j] & 0xff
                    &&& j >= pin && (self.table[j] & 0xff) as u8 == vector ==> after
                        & IOAPIC_LVT_REMOTE_IRR == 0
                    &&& j < pin || (self.table[j] & 0xff) as u8 != vector ==> after == self.table[j]
                } by {
                    assert(next.table[j] == cleared.table[j]);
                    assert(next.acknowledged_from(vector, pin + 1).0.table[j]
                        == self.acknowledged_from(vector, pin).0.table[j]);
                }
            } else {
                self.lemma_acknowledge(vector, pin + 1);
            }
        }
    }

    /// Acknowledging a vector clears the remote IRR bit of every entry with
    /// that vector whose line is no longer raised, and leaves the entries of
    /// other such lines alone.
    pub proof fn law_acknowledge(self, vector: u8, pin: int)
        requires
            self.wf(),
            0 <= pin < IOAPIC_NUM_PINS,
            !pending(self.irr, pin),
        ensures
            ({
                let after = self.acknowledged_from(vector, 0).0.table[pin];
                if (self.table[pin] & 0xff) as u8 == vector {
                    after & IOAPIC_LVT_REMOTE_IRR == 0
                } else {
                    after == self.table[pin]
                }
            }),
    {
        self.lemma_acknowledge(vector, 0);
        assert(self.acknowledged_from(vector, 0).0.table[pin] == self.acknowledged_from(
            vector,
            0,
        ).0.table[pin]);
    }

    /// A lowered line is not pending, and lowering it leaves the others.
    pub proof fn law_lowered(self, irq: u32, other: int)
        requires
            irq < IOAPIC_NUM_PINS,
            0 <= other < IOAPIC_NUM_PINS,
        ensures
            !pending(self.lowered(Some(irq)).irr, irq as int),
            other != irq ==> pending(self.lowered(Some(irq)).irr, other) == pending(self.irr, other),
    {
        lemma_clear_bit(self.irr, irq, other as u32);
        lemma_clear_bit(self.irr, irq, irq);
    }
}

} // verus!

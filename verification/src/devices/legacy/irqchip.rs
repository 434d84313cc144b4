//! The interrupt controller that devices raise their lines on.

use vstd::prelude::*;

use crate::byte_order::{le_bytes, overwritten};
use crate::devices::legacy::ioapic::{InterruptRequest, IoApic, IO_APIC_ARB, IO_WIN};
use crate::devices::legacy::simple_irqchip::SimpleIrqChip;

verus! {

/// What must happen outside after a line was raised.
#[derive(Debug)]
pub struct IrqEffect {
    /// The interrupts to deliver, in order.
    pub injected: Vec<InterruptRequest>,
    /// Whether the device's interrupt event must be signalled.
    pub signal_event: bool,
}

/// An interrupt controller.
#[derive(Debug)]
pub enum IrqChip {
    IoApic(IoApic),
    Simple(SimpleIrqChip),
}

impl IrqChip {
    pub open spec fn wf(self) -> bool {
        self matches IrqChip::IoApic(apic) ==> apic@.wf()
    }

    /// How the controller and the effect look after `line` was raised.
    pub open spec fn raised(self, line: Option<u32>, has_event: bool, after: IrqChip, effect: IrqEffect) -> bool {
        match self {
            IrqChip::IoApic(apic) => after matches IrqChip::IoApic(b) && (b@, effect.injected@)
                == apic@.raised(line) && !effect.signal_event,
            IrqChip::Simple(chip) => after == IrqChip::Simple(
                SimpleIrqChip { irq_line: line, ..chip },
            ) && effect.injected@.len() == 0 && effect.signal_event == has_event,
        }
    }

    /// How the controller looks after `line` was lowered.
    pub open spec fn lowered(self, line: Option<u32>, after: IrqChip) -> bool {
        match self {
            IrqChip::IoApic(apic) => after matches IrqChip::IoApic(b) && b@ == apic@.lowered(line),
            IrqChip::Simple(_) => after == self,
        }
    }

    pub fn get_mmio_addr(&self) -> (r: u64)
        ensures
            r == (match *self {
                IrqChip::IoApic(apic) => apic.mmio_addr,
                IrqChip::Simple(chip) => chip.mmio_addr,
            }),
    {
        match self {
            IrqChip::IoApic(apic) => apic.get_mmio_addr(),
            IrqChip::Simple(chip) => chip.get_mmio_addr(),
        }
    }

    pub fn get_mmio_size(&self) -> (r: u64)
        ensures
            r == (match *self {
                IrqChip::IoApic(apic) => apic.mmio_size,
                IrqChip::Simple(chip) => chip.mmio_size,
            }),
    {
        match self {
            IrqChip::IoApic(apic) => apic.get_mmio_size(),
            IrqChip::Simple(chip) => chip.get_mmio_size(),
        }
    }

    /// Raises a line. `has_event` tells whether the caller has an event that
    /// can be signalled.
    pub fn set_irq(&mut self, irq_line: Option<u32>, has_event: bool) -> (r: IrqEffect)
        requires
            old(self).wf(),
        ensures
            final(self).wf(),
            old(self).raised(irq_line, has_event, *final(self), r),
    {
        match self {
            IrqChip::IoApic(apic) => {
                let injected = apic.set_irq(irq_line);
                IrqEffect { injected, signal_event: false }
            },
            IrqChip::Simple(chip) => {
                let signal_event = chip.set_irq(irq_line, has_event);
                IrqEffect { injected: Vec::new(), signal_event }
            },
        }
    }

    /// Lowers a line.
    pub fn clear_irq(&mut self, irq_line: Option<u32>)
        requires
            old(self).wf(),
        ensures
            final(self).wf(),
            old(self).lowered(irq_line, *final(self)),
    {
        match self {
            IrqChip::IoApic(apic) => apic.clear_irq(irq_line),
            IrqChip::Simple(_) => {},
        }
    }

    /// Whether a read is one that the controller can answer.
    pub open spec fn readable(self, offset: u64, len: int) -> bool {
        self matches IrqChip::IoApic(apic) ==> offset == IO_WIN && len == 4 ==> apic.ioregsel
            <= IO_APIC_ARB || apic.ioregsel >= 0x10
    }

    /// Reads a register. The minimal controller has none.
    pub fn read(&self, offset: u64, data: &mut [u8])
        requires
            self.wf(),
            self.readable(offset, old(data)@.len() as int),
        ensures
            final(data)@ == (match *self {
                IrqChip::IoApic(apic) => match apic@.read_value(offset, old(data)@.len() as int) {
                    Some(v) => overwritten(old(data)@, le_bytes(v as nat, 4)),
                    None => old(data)@,
                },
                IrqChip::Simple(_) => old(data)@,
            }),
    {
        match self {
            IrqChip::IoApic(apic) => apic.read(offset, data),
            IrqChip::Simple(_) => {},
        }
    }

    /// Writes a register. The minimal controller has none. The result lists
    /// the interrupts to deliver.
    pub fn write(&mut self, offset: u64, data: &[u8]) -> (r: Vec<InterruptRequest>)
        requires
            old(self).wf(),
        ensures
            final(self).wf(),
            match *old(self) {
                IrqChip::IoApic(apic) => *final(self) matches IrqChip::IoApic(b) && (b@, r@)
                    == apic@.written(offset, data@),
                IrqChip::Simple(_) => *final(self) == *old(self) && r@.len() == 0,
            },
    {
        match self {
            IrqChip::IoApic(apic) => apic.write(offset, data),
            IrqChip::Simple(_) => Vec::new(),
        }
    }
}

/// Serves the guest's accesses to the interrupt controller's registers.
#[derive(Debug)]
pub struct IoApicMmioAdapter {
    pub irqchip: IrqChip,
}

impl IoApicMmioAdapter {
    pub fn new(irqchip: IrqChip) -> (r: Self)
        ensures
            r.irqchip == irqchip,
    {
        IoApicMmioAdapter { irqchip }
    }

    /// Reads a register of the controller.
    pub fn read(&self, offset: u64, data: &mut [u8])
        requires
            self.irqchip.wf(),
            self.irqchip.readable(offset, old(data)@.len() as int),
        ensures
            final(data)@ == (match self.irqchip {
                IrqChip::IoApic(apic) => match apic@.read_value(offset, old(data)@.len() as int) {
                    Some(v) => overwritten(old(data)@, le_bytes(v as nat, 4)),
                    None => old(data)@,
                },
                IrqChip::Simple(_) => old(data)@,
            }),
    {
        self.irqchip.read(offset, data)
    }

    /// Writes a register of the controller. The result lists the interrupts
    /// to deliver.
    pub fn write(&mut self, offset: u64, data: &[u8]) -> (r: Vec<InterruptRequest>)
        requires
            old(self).irqchip.wf(),
        ensures
            final(self).irqchip.wf(),
            match old(self).irqchip {
                IrqChip::IoApic(apic) => final(self).irqchip matches IrqChip::IoApic(b) && (b@, r@)
                    == apic@.written(offset, data@),
                IrqChip::Simple(_) => final(self).irqchip == old(self).irqchip && r@.len() == 0,
            },
    {
        self.irqchip.write(offset, data)
    }
}

} // verus!

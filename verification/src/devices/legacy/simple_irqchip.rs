//! An interrupt controller that only remembers the last line and passes
//! interrupts on as events.

use vstd::prelude::*;

verus! {

/// A minimal interrupt controller.
#[derive(Clone, Copy, Debug, PartialEq, Eq, Structural)]
pub struct SimpleIrqChip {
    pub mmio_addr: u64,
    pub mmio_size: u64,
    /// The line that was raised last.
    pub irq_line: Option<u32>,
}

impl SimpleIrqChip {
    pub fn new(mmio_addr: u64, mmio_size: u64) -> (r: Self)
        ensures
            r == (SimpleIrqChip { mmio_addr, mmio_size, irq_line: None }),
    {
        SimpleIrqChip { mmio_addr, mmio_size, irq_line: None }
    }

    pub fn get_mmio_addr(&self) -> (r: u64)
        ensures
            r == self.mmio_addr,
    {
        self.mmio_addr
    }

    pub fn get_mmio_size(&self) -> (r: u64)
        ensures
            r == self.mmio_size,
    {
        self.mmio_size
    }

    /// Remembers the line. The result tells whether an event must be
    /// signalled: it must if the caller has one.
    pub fn set_irq(&mut self, irq_line: Option<u32>, has_event: bool) -> (r: bool)
        ensures
            *final(self) == (SimpleIrqChip { irq_line, ..*old(self) }),
            r == has_event,
    {
        self.irq_line = irq_line;
        has_event
    }
}

} // verus!

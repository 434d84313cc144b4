//! Interrupt controllers.

pub mod ioapic;
pub mod irqchip;
pub mod simple_irqchip;

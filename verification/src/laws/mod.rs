//! What the machine guarantees, told over bytes, addresses and registers.

pub mod bits;
pub mod block;
pub mod boot;
pub mod bytes;
pub mod devices;
pub mod driver;
pub mod elf;
pub mod entry;
pub mod exits;
pub mod guest;
pub mod ioapic;
pub mod machine;
pub mod memory;
pub mod net;
pub mod platform;
pub mod ports;
pub mod queue;
pub mod registers;
pub mod reports;
pub mod small_disk;
pub mod stream;
pub mod text;
pub mod transport;
pub mod workers;

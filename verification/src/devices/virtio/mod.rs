//! Virtio devices behind the MMIO transport.

pub mod bindings;
pub mod block;
pub mod console;
pub mod descriptor_utils;
pub mod device;
pub mod mmio;
pub mod mmio_adapter;
pub mod net;
pub mod queue;
pub mod rng;
pub mod wake;

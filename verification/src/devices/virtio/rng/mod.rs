//! The virtio entropy source.

pub mod device;
pub mod worker;

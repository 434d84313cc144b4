//! The virtio network device.

pub mod device;
pub mod worker;

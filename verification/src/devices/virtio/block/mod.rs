//! The virtio block device.

pub mod device;
pub mod worker;
